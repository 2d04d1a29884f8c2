//! Order admission: the checks a submitted order passes before funds are
//! reserved for it, and the bookkeeping of which orders are live.

use std::collections::{HashMap, HashSet};

use vstd::prelude::*;

use crate::types::{
    AccountId, CircuitBreakerConfig, ExecutionReport, FeeSchedule, InstrumentSpec, Order, OrderId,
    OrderType, Price, Quantity, RejectReason, ReservationSlot, RiskLimits, Side, Symbol, TimeInForce,
};

verus! {

broadcast use vstd::std_specs::hash::group_hash_axioms;

/// Trading rules of one instrument.
#[derive(Clone, Copy, Debug)]
pub struct InstrumentPolicy {
    pub spec: InstrumentSpec,
    pub disabled: bool,
    pub circuit_breaker: CircuitBreakerConfig,
    pub risk_limits: RiskLimits,
    pub fee_schedule: FeeSchedule,
}

/// The exchange's own state: instrument rules, per-account limits, the live
/// orders, the clock of the event being applied, and the request marks.
pub struct Exchange {
    instruments: HashMap<u32, InstrumentPolicy>,
    live_order_ids: HashSet<u128>,
    order_counts: HashMap<u32, u32>,
    max_open_orders_per_account: u32,
    max_orders_per_second: u32,
    max_orders_burst: u32,
    current_event_ts_ns: u64,
    request_marks: HashMap<u64, u64>,
}

/// What has to happen next for a submitted order.
#[derive(Clone, Copy, Debug, PartialEq, Eq, Structural)]
pub enum ExecuteStep {
    /// The order is refused and the report is out.
    Refused,
    /// Take a token from the account's bucket, made full where there is none
    /// yet, then go on with `Exchange::rate_checked`.
    TakeToken { account: AccountId, now_ns: u64, rate: u32, burst: u32 },
    /// Reserve funds, then go on with `Exchange::reserved`.
    Reserve { spec: InstrumentSpec },
}

/// How an admitted order goes to its book.
#[derive(Clone, Copy, Debug, PartialEq, Eq, Structural)]
pub struct MatchRequest {
    /// Most that the order may spend, where its price does not bound it.
    pub quote_budget: Option<u64>,
    pub slot: ReservationSlot,
}

/// The price an order is limited to, if any.
pub open spec fn limit_price_spec(order: Order) -> Option<Price> {
    match order.order_type {
        OrderType::Limit { price, .. } => Some(price),
        OrderType::StopLimit { limit_price, .. } => Some(limit_price),
        OrderType::Market => None,
        OrderType::Stop { .. } => None,
    }
}

/// Whether a price lies outside the bands.
pub open spec fn outside_band(cb: CircuitBreakerConfig, price: Price) -> bool {
    ||| cb.price_band_lower matches Some(lower) && price.0 < lower.0
    ||| cb.price_band_upper matches Some(upper) && price.0 > upper.0
}

/// Whether an order is larger than the instrument allows.
pub open spec fn over_quantity(limits: RiskLimits, order: Order) -> bool {
    limits.max_order_qty matches Some(max) && order.quantity.0 > max.0
}

/// Whether an order with a price is worth more than the instrument allows.
pub open spec fn over_notional(limits: RiskLimits, order: Order) -> bool {
    &&& limits.max_order_notional matches Some(max)
    &&& limit_price_spec(order) matches Some(price)
    &&& price.0 * order.quantity.0 > max
}

/// Whether the expiry does not fit the time in force: a GTD order expires
/// after the clock, any other carries no expiry.
pub open spec fn bad_expiry(order: Order, now_ns: u64) -> bool {
    if order.time_in_force == TimeInForce::GTD {
        order.expiry_ns <= now_ns
    } else {
        order.expiry_ns != 0
    }
}

/// The venue-side reason to refuse an order on an instrument, the first that
/// applies.
pub open spec fn venue_reason(policy: InstrumentPolicy, duplicate: bool, order: Order, now_ns: u64) -> Option<
    RejectReason,
> {
    if policy.disabled {
        Some(RejectReason::InstrumentDisabled)
    } else if duplicate {
        Some(RejectReason::DuplicateOrderId)
    } else if policy.circuit_breaker.halted {
        Some(RejectReason::TradingHalted)
    } else if limit_price_spec(order) is Some && outside_band(
        policy.circuit_breaker,
        limit_price_spec(order).unwrap(),
    ) {
        Some(RejectReason::OutsidePriceBand)
    } else if over_quantity(policy.risk_limits, order) {
        Some(RejectReason::ExceedsMaxOrderQty)
    } else if over_notional(policy.risk_limits, order) {
        Some(RejectReason::ExceedsMaxNotional)
    } else if bad_expiry(order, now_ns) {
        Some(RejectReason::InvalidExpiry)
    } else {
        None
    }
}

/// The rejection report of an order.
pub open spec fn rejection(symbol: Symbol, order: Order, reason: RejectReason) -> ExecutionReport {
    ExecutionReport::Rejected { order_id: order.id, symbol, account: order.account, reason }
}

/// One number for an account and one of its order ids.
pub open spec fn order_key_spec(account: AccountId, id: OrderId) -> int {
    account.0 * 0x1_0000_0000_0000_0000 + id.0
}

fn order_key(account: AccountId, id: OrderId) -> (k: u128)
    ensures
        k == order_key_spec(account, id),
{
    account.0 as u128 * 0x1_0000_0000_0000_0000 + id.0 as u128
}

fn limit_price(order: &Order) -> (p: Option<Price>)
    ensures
        p == limit_price_spec(*order),
{
    match order.order_type {
        OrderType::Limit { price, .. } => Some(price),
        OrderType::StopLimit { limit_price, .. } => Some(limit_price),
        OrderType::Market => None,
        OrderType::Stop { .. } => None,
    }
}

impl Exchange {
    /// The trading rules by instrument.
    pub closed spec fn instruments(&self) -> Map<u32, InstrumentPolicy> {
        self.instruments@
    }

    /// The live orders, by account and order id.
    pub closed spec fn live_orders(&self) -> Set<(AccountId, OrderId)> {
        Set::new(
            |k: (AccountId, OrderId)|
                self.live_order_ids@.contains(order_key_spec(k.0, k.1) as u128),
        )
    }

    /// Number of open orders counted for an account.
    pub closed spec fn open_orders(&self, account: AccountId) -> nat {
        if self.order_counts@.dom().contains(account.0) {
            self.order_counts@[account.0] as nat
        } else {
            0
        }
    }

    /// Most open orders per account, zero for no limit.
    pub closed spec fn max_open(&self) -> u32 {
        self.max_open_orders_per_account
    }

    /// Sustained submission rate and burst per account.
    pub closed spec fn order_rate(&self) -> (u32, u32) {
        (self.max_orders_per_second, self.max_orders_burst)
    }

    /// The clock of the event being applied.
    pub closed spec fn now(&self) -> u64 {
        self.current_event_ts_ns
    }

    /// Highest request sequence accepted from each key heard of.
    pub closed spec fn marks(&self) -> Map<u64, u64> {
        self.request_marks@
    }

    /// Highest request sequence accepted from a key, zero before the first.
    pub open spec fn mark(&self, key: u64) -> u64 {
        if self.marks().dom().contains(key) {
            self.marks()[key]
        } else {
            0
        }
    }

    /// Whether the rate limiter is on: it needs both a rate and a burst.
    pub open spec fn rate_limited(&self) -> bool {
        self.order_rate().0 > 0 && self.order_rate().1 > 0
    }

    /// Whether an account is at its open-order limit.
    pub open spec fn at_open_limit(&self, account: AccountId) -> bool {
        self.max_open() > 0 && self.open_orders(account) >= self.max_open()
    }

    /// The reason to refuse an order before any funds are touched, the first
    /// that applies.
    pub open spec fn refusal(&self, symbol: Symbol, order: Order) -> Option<RejectReason> {
        if !self.instruments().dom().contains(symbol.0) {
            Some(RejectReason::UnknownSymbol)
        } else {
            let venue = venue_reason(
                self.instruments()[symbol.0],
                self.live_orders().contains((order.account, order.id)),
                order,
                self.now(),
            );
            if venue is Some {
                venue
            } else if self.at_open_limit(order.account) {
                Some(RejectReason::ExceedsMaxOpenOrders)
            } else {
                None
            }
        }
    }

    /// Nothing but the live orders and their counts differs.
    pub open spec fn same_rules(&self, other: &Exchange) -> bool {
        &&& self.instruments() == other.instruments()
        &&& self.max_open() == other.max_open()
        &&& self.order_rate() == other.order_rate()
        &&& self.now() == other.now()
        &&& self.marks() == other.marks()
    }

    /// An exchange without instruments, orders or limits.
    pub fn new() -> (e: Exchange)
        ensures
            e.instruments() == Map::<u32, InstrumentPolicy>::empty(),
            e.live_orders() == Set::<(AccountId, OrderId)>::empty(),
            forall|a: AccountId| #[trigger] e.open_orders(a) == 0,
            e.max_open() == 0,
            e.order_rate() == (0u32, 0u32),
            e.now() == 0,
            e.marks() == Map::<u64, u64>::empty(),
    {
        let e = Exchange {
            instruments: HashMap::new(),
            live_order_ids: HashSet::new(),
            order_counts: HashMap::new(),
            max_open_orders_per_account: 0,
            max_orders_per_second: 0,
            max_orders_burst: 0,
            current_event_ts_ns: 0,
            request_marks: HashMap::new(),
        };
        assert(e.live_orders() =~= Set::<(AccountId, OrderId)>::empty());
        e
    }

    /// Runs every check that needs no ledger on an order, in the order in
    /// which a client hears of them, and says what comes next. A refusal is
    /// reported here.
    pub fn execute(&self, symbol: Symbol, order: Order, reports: &mut Vec<ExecutionReport>) -> (step:
        ExecuteStep)
        ensures
            match self.refusal(symbol, order) {
                Some(reason) => {
                    &&& step == ExecuteStep::Refused
                    &&& final(reports)@ == old(reports)@.push(rejection(symbol, order, reason))
                },
                None => {
                    &&& final(reports)@ == old(reports)@
                    &&& step == (if self.rate_limited() {
                        ExecuteStep::TakeToken {
                            account: order.account,
                            now_ns: self.now(),
                            rate: self.order_rate().0,
                            burst: self.order_rate().1,
                        }
                    } else {
                        ExecuteStep::Reserve { spec: self.instruments()[symbol.0].spec }
                    })
                },
            },
            step != ExecuteStep::Refused ==> {
                let policy = self.instruments()[symbol.0];
                &&& self.instruments().dom().contains(symbol.0)
                &&& order.order_type matches OrderType::Limit { price, .. } ==> price_allowed(
                    policy,
                    price,
                    order.quantity,
                )
                &&& order.order_type matches OrderType::StopLimit { limit_price, .. }
                    ==> price_allowed(policy, limit_price, order.quantity)
                &&& policy.risk_limits.max_order_qty matches Some(max) ==> order.quantity.0 <= max.0
                &&& !policy.disabled
                &&& !policy.circuit_breaker.halted
                &&& !self.live_orders().contains((order.account, order.id))
                &&& order.time_in_force == TimeInForce::GTD ==> order.expiry_ns > self.now()
                &&& order.time_in_force != TimeInForce::GTD ==> order.expiry_ns == 0
                &&& self.max_open() == 0 || self.open_orders(order.account) < self.max_open()
            },
    {
        proof {
            if self.refusal(symbol, order) is None {
                law_admitted_order_keeps_every_limit(self, symbol, order);
            }
        }
        let policy: InstrumentPolicy = match self.instruments.get(&symbol.0) {
            Some(policy) => *policy,
            None => {
                reports.push(
                    ExecutionReport::Rejected {
                        order_id: order.id,
                        symbol,
                        account: order.account,
                        reason: RejectReason::UnknownSymbol,
                    },
                );
                return ExecuteStep::Refused;
            },
        };
        if let Some(reason) = self.check_order(&policy, &order) {
            reports.push(
                ExecutionReport::Rejected {
                    order_id: order.id,
                    symbol,
                    account: order.account,
                    reason,
                },
            );
            return ExecuteStep::Refused;
        }
        if self.max_orders_per_second > 0 && self.max_orders_burst > 0 {
            return ExecuteStep::TakeToken {
                account: order.account,
                now_ns: self.current_event_ts_ns,
                rate: self.max_orders_per_second,
                burst: self.max_orders_burst,
            };
        }
        ExecuteStep::Reserve { spec: policy.spec }
    }

    /// The checks of an order against its instrument and its account.
    fn check_order(&self, policy: &InstrumentPolicy, order: &Order) -> (r: Option<RejectReason>)
        ensures
            ({
                let venue = venue_reason(
                    *policy,
                    self.live_orders().contains((order.account, order.id)),
                    *order,
                    self.now(),
                );
                r == (if venue is Some {
                    venue
                } else if self.at_open_limit(order.account) {
                    Some(RejectReason::ExceedsMaxOpenOrders)
                } else {
                    None
                })
            }),
    {
        if policy.disabled {
            return Some(RejectReason::InstrumentDisabled);
        }
        if self.live_order_ids.contains(&order_key(order.account, order.id)) {
            return Some(RejectReason::DuplicateOrderId);
        }
        if policy.circuit_breaker.halted {
            return Some(RejectReason::TradingHalted);
        }
        if let Some(price) = limit_price(order) {
            if let Some(lower) = policy.circuit_breaker.price_band_lower {
                if price.get() < lower.get() {
                    return Some(RejectReason::OutsidePriceBand);
                }
            }
            if let Some(upper) = policy.circuit_breaker.price_band_upper {
                if price.get() > upper.get() {
                    return Some(RejectReason::OutsidePriceBand);
                }
            }
        }
        if let Some(max_qty) = policy.risk_limits.max_order_qty {
            if order.quantity.get() > max_qty.get() {
                return Some(RejectReason::ExceedsMaxOrderQty);
            }
        }
        if let Some(max_notional) = policy.risk_limits.max_order_notional {
            if let Some(price) = limit_price(order) {
                proof {
                    lemma_product_fits(price.0, order.quantity.0);
                }
                let notional: u128 = price.get() as u128 * order.quantity.get() as u128;
                if notional > max_notional as u128 {
                    return Some(RejectReason::ExceedsMaxNotional);
                }
            }
        }
        if order.time_in_force == TimeInForce::GTD {
            if order.expiry_ns <= self.current_event_ts_ns {
                return Some(RejectReason::InvalidExpiry);
            }
        } else if order.expiry_ns != 0 {
            return Some(RejectReason::InvalidExpiry);
        }
        if self.max_open_orders_per_account > 0 && self.open_order_count(order.account)
            >= self.max_open_orders_per_account {
            return Some(RejectReason::ExceedsMaxOpenOrders);
        }
        None
    }

    /// Number of open orders counted for an account.
    pub fn open_order_count(&self, account: AccountId) -> (n: u32)
        ensures
            n == self.open_orders(account),
    {
        match self.order_counts.get(&account.0) {
            Some(n) => *n,
            None => 0,
        }
    }

    /// Goes on after the rate limiter's answer: refuses the order where no
    /// token was left.
    pub fn rate_checked(
        &self,
        symbol: Symbol,
        order: Order,
        granted: bool,
        reports: &mut Vec<ExecutionReport>,
    ) -> (step: ExecuteStep)
        requires
            self.instruments().dom().contains(symbol.0),
        ensures
            granted ==> final(reports)@ == old(reports)@ && step == (ExecuteStep::Reserve {
                spec: self.instruments()[symbol.0].spec,
            }),
            !granted ==> step == ExecuteStep::Refused && final(reports)@ == old(reports)@.push(
                rejection(symbol, order, RejectReason::ExceedsOrderRate),
            ),
    {
        if !granted {
            reports.push(
                ExecutionReport::Rejected {
                    order_id: order.id,
                    symbol,
                    account: order.account,
                    reason: RejectReason::ExceedsOrderRate,
                },
            );
            return ExecuteStep::Refused;
        }
        match self.instruments.get(&symbol.0) {
            Some(policy) => ExecuteStep::Reserve { spec: policy.spec },
            None => ExecuteStep::Refused,
        }
    }

    /// Goes on after the ledger's answer to a reservation: reports a refusal,
    /// or counts the order as live and hands it to its book. A buy without a
    /// limit price may spend what was reserved for it and no more.
    pub fn reserved(
        &mut self,
        symbol: Symbol,
        order: Order,
        outcome: Result<(u64, ReservationSlot), RejectReason>,
        reports: &mut Vec<ExecutionReport>,
    ) -> (request: Option<MatchRequest>)
        requires
            old(self).open_orders(order.account) < u32::MAX,
        ensures
            final(self).same_rules(old(self)),
            match outcome {
                Err(reason) => {
                    &&& request is None
                    &&& final(reports)@ == old(reports)@.push(rejection(symbol, order, reason))
                    &&& final(self).live_orders() == old(self).live_orders()
                    &&& forall|a: AccountId| #[trigger]
                        final(self).open_orders(a) == old(self).open_orders(a)
                },
                Ok((amount, slot)) => {
                    &&& request == Some(
                        MatchRequest {
                            quote_budget: if order.side == Side::Buy && (order.order_type is Market
                                || order.order_type is Stop) {
                                Some(amount)
                            } else {
                                None
                            },
                            slot,
                        },
                    )
                    &&& final(reports)@ == old(reports)@
                    &&& final(self).live_orders() == old(self).live_orders().insert(
                        (order.account, order.id),
                    )
                    &&& forall|a: AccountId| #[trigger]
                        final(self).open_orders(a) == old(self).open_orders(a) + (if a
                            == order.account {
                            1nat
                        } else {
                            0
                        })
                },
            },
    {
        let (amount, slot) = match outcome {
            Ok(r) => r,
            Err(reason) => {
                reports.push(
                    ExecutionReport::Rejected {
                        order_id: order.id,
                        symbol,
                        account: order.account,
                        reason,
                    },
                );
                return None;
            },
        };
        let quote_budget: Option<u64> = match (order.side, order.order_type) {
            (Side::Buy, OrderType::Market) => Some(amount),
            (Side::Buy, OrderType::Stop { .. }) => Some(amount),
            _ => None,
        };
        let n: u32 = self.open_order_count(order.account);
        self.order_counts.insert(order.account.0, n + 1);
        self.live_order_ids.insert(order_key(order.account, order.id));
        assert(self.live_orders() =~= old(self).live_orders().insert((order.account, order.id)));
        Some(MatchRequest { quote_budget, slot })
    }

    /// Takes closed orders out of the live set and the open counts, which
    /// both say which orders are live.
    pub fn close_orders(&mut self, freed: &Vec<(AccountId, OrderId)>)
        ensures
            final(self).same_rules(old(self)),
            final(self).live_orders() == old(self).live_orders().difference(freed@.to_set()),
            forall|a: AccountId| #[trigger]
                final(self).open_orders(a) == less(old(self).open_orders(a), count_of(freed@, a)),
    {
        let mut i: usize = 0;
        proof {
            assert(freed@.take(0).to_set() =~= Set::empty());
            assert(self.live_orders().difference(freed@.take(0).to_set()) =~= self.live_orders());
        }
        while i < freed.len()
            invariant
                0 <= i <= freed@.len(),
                self.same_rules(old(self)),
                self.live_orders() == old(self).live_orders().difference(
                    freed@.take(i as int).to_set(),
                ),
                forall|a: AccountId| #[trigger]
                    self.open_orders(a) == less(
                        old(self).open_orders(a),
                        count_of(freed@.take(i as int), a),
                    ),
            decreases freed@.len() - i,
        {
            let (account, id) = freed[i];
            let ghost before = *self;
            self.live_order_ids.remove(&order_key(account, id));
            let ghost mid = *self;
            self.release_open_order(account);
            proof {
                assert forall|a: AccountId| #[trigger] self.open_orders(a) == less(
                    old(self).open_orders(a),
                    count_of(freed@.take(i + 1), a),
                ) by {
                    assert(mid.open_orders(a) == before.open_orders(a));
                    assert(freed@.take(i + 1).drop_last() =~= freed@.take(i as int));
                    assert(freed@.take(i + 1).last() == (account, id));
                }
                let next = freed@.take(i + 1);
                assert(next.drop_last() =~= freed@.take(i as int));
                assert(next.last() == (account, id));
                assert(next =~= freed@.take(i as int).push((account, id)));
                assert forall|k: (AccountId, OrderId)|
                    next.to_set().contains(k) <==> freed@.take(i as int).to_set().contains(k) || k
                        == (account, id) by {
                    if freed@.take(i as int).to_set().contains(k) {
                        let j = choose|j: int| 0 <= j < i && freed@.take(i as int)[j] == k;
                        assert(next[j] == k);
                    }
                    if next.to_set().contains(k) {
                        let j = choose|j: int| 0 <= j < next.len() && next[j] == k;
                        if j < i {
                            assert(freed@.take(i as int)[j] == k);
                        }
                    }
                    assert(next[i as int] == (account, id));
                }
                assert forall|k: (AccountId, OrderId)|
                    #![trigger self.live_orders().contains(k)]
                    self.live_orders().contains(k) <==> before.live_orders().contains(k) && k != (
                    account,
                    id,
                ) by {
                    assert(order_key_spec(k.0, k.1) == order_key_spec(account, id) ==> k == (
                    account,
                    id,
                ));
                }
                assert(self.live_orders() =~= old(self).live_orders().difference(next.to_set()));
            }
            i = i + 1;
        }
        assert(freed@.take(i as int) =~= freed@);
    }

    /// Counts one open order less for an account, down to none.
    fn release_open_order(&mut self, account: AccountId)
        ensures
            final(self).same_rules(old(self)),
            final(self).live_order_ids@ == old(self).live_order_ids@,
            forall|a: AccountId| #[trigger]
                final(self).open_orders(a) == (if a == account {
                    less(old(self).open_orders(a), 1)
                } else {
                    old(self).open_orders(a)
                }),
    {
        let n: u32 = self.open_order_count(account);
        if n > 1 {
            self.order_counts.insert(account.0, n - 1);
        } else {
            self.order_counts.remove(&account.0);
        }
    }

    /// Whether a request may be applied: the first of its sequence from its
    /// key. Moves the key's mark forward if so. Key 0 is always allowed and
    /// has no mark.
    pub fn check_request_seq(&mut self, key: u64, seq: u64) -> (allowed: bool)
        ensures
            allowed == (key == 0 || seq > old(self).mark(key)),
            final(self).marks() == (if key != 0 && allowed {
                old(self).marks().insert(key, seq)
            } else {
                old(self).marks()
            }),
            final(self).same_but_marks(old(self)),
    {
        if key == 0 {
            return true;
        }
        if seq <= self.request_seq_hwm(key) {
            return false;
        }
        self.request_marks.insert(key, seq);
        true
    }

    /// Nothing but the request marks differs.
    pub open spec fn same_but_marks(&self, other: &Exchange) -> bool {
        &&& self.instruments() == other.instruments()
        &&& self.max_open() == other.max_open()
        &&& self.order_rate() == other.order_rate()
        &&& self.now() == other.now()
        &&& self.live_orders() == other.live_orders()
        &&& forall|a: AccountId| #[trigger] self.open_orders(a) == other.open_orders(a)
    }

    /// Highest request sequence accepted from a key, zero before the first.
    pub fn request_seq_hwm(&self, key: u64) -> (hwm: u64)
        ensures
            hwm == self.mark(key),
    {
        match self.request_marks.get(&key) {
            Some(mark) => *mark,
            None => 0,
        }
    }

    /// The live orders, their counts and the marks are as they were.
    pub open spec fn same_orders(&self, other: &Exchange) -> bool {
        &&& self.live_orders() == other.live_orders()
        &&& forall|a: AccountId| #[trigger] self.open_orders(a) == other.open_orders(a)
        &&& self.marks() == other.marks()
    }

    /// Sets the clock to the timestamp of the event being applied.
    pub fn set_current_event_ts_ns(&mut self, now_ns: u64)
        ensures
            final(self).now() == now_ns,
            final(self).instruments() == old(self).instruments(),
            final(self).max_open() == old(self).max_open(),
            final(self).order_rate() == old(self).order_rate(),
            final(self).same_orders(old(self)),
    {
        self.current_event_ts_ns = now_ns;
    }

    /// Sets the most open orders an account may have, zero for no limit.
    pub fn set_max_open_orders_per_account(&mut self, max: u32)
        ensures
            final(self).max_open() == max,
            final(self).now() == old(self).now(),
            final(self).instruments() == old(self).instruments(),
            final(self).order_rate() == old(self).order_rate(),
            final(self).same_orders(old(self)),
    {
        self.max_open_orders_per_account = max;
    }

    /// Sets the submission rate and burst per account; zero turns it off.
    pub fn set_max_orders_per_second(&mut self, rate: u32, burst: u32)
        ensures
            final(self).order_rate() == (rate, burst),
            final(self).max_open() == old(self).max_open(),
            final(self).now() == old(self).now(),
            final(self).instruments() == old(self).instruments(),
            final(self).same_orders(old(self)),
    {
        self.max_orders_per_second = rate;
        self.max_orders_burst = burst;
    }

    /// Sets the trading rules of an instrument, or takes the instrument out.
    pub fn set_instrument(&mut self, symbol: Symbol, policy: Option<InstrumentPolicy>)
        ensures
            final(self).instruments() == (match policy {
                Some(p) => old(self).instruments().insert(symbol.0, p),
                None => old(self).instruments().remove(symbol.0),
            }),
            final(self).max_open() == old(self).max_open(),
            final(self).order_rate() == old(self).order_rate(),
            final(self).now() == old(self).now(),
            final(self).same_orders(old(self)),
    {
        match policy {
            Some(p) => {
                self.instruments.insert(symbol.0, p);
            },
            None => {
                self.instruments.remove(&symbol.0);
            },
        }
    }

    /// The trading rules of an instrument.
    pub fn instrument(&self, symbol: Symbol) -> (policy: Option<InstrumentPolicy>)
        ensures
            policy == (if self.instruments().dom().contains(symbol.0) {
                Some(self.instruments()[symbol.0])
            } else {
                None
            }),
    {
        match self.instruments.get(&symbol.0) {
            Some(policy) => Some(*policy),
            None => None,
        }
    }

    /// Counts and live orders agree for every account.
    pub open spec fn lockstep(&self) -> bool {
        forall|a: AccountId| #[trigger] self.in_step(a)
    }

    /// An account's count is the number of its live orders.
    pub open spec fn in_step(&self, a: AccountId) -> bool {
        &&& live_of(self.live_orders(), a).finite()
        &&& self.open_orders(a) == live_of(self.live_orders(), a).len()
    }
}

/// When a submitted order has to be taken off the book, if ever: a GTD order
/// that is still on it once it was executed.
pub fn expiry_to_schedule(order: &Order, on_book: bool) -> (expiry: Option<u64>)
    ensures
        expiry == (if order.time_in_force == TimeInForce::GTD && order.expiry_ns > 0 && on_book {
            Some(order.expiry_ns)
        } else {
            None
        }),
{
    if order.time_in_force == TimeInForce::GTD && order.expiry_ns > 0 && on_book {
        Some(order.expiry_ns)
    } else {
        None
    }
}

/// `n - k`, or zero where `k` is larger.
pub open spec fn less(n: nat, k: nat) -> nat {
    if n >= k {
        (n - k) as nat
    } else {
        0
    }
}

/// How many of the listed orders are of an account.
pub open spec fn count_of(freed: Seq<(AccountId, OrderId)>, account: AccountId) -> nat
    decreases freed.len(),
{
    if freed.len() == 0 {
        0
    } else {
        count_of(freed.drop_last(), account) + (if freed.last().0 == account {
            1nat
        } else {
            0
        })
    }
}

/// The live order ids of one account.
pub open spec fn live_of(live: Set<(AccountId, OrderId)>, account: AccountId) -> Set<OrderId> {
    Set::new(|id: OrderId| live.contains((account, id)))
}

/// Admitting an order that is not live yet keeps counts and live orders in
/// step.
pub proof fn law_admission_keeps_lockstep(before: &Exchange, after: &Exchange, account: AccountId, id: OrderId)
    requires
        before.lockstep(),
        !before.live_orders().contains((account, id)),
        after.live_orders() == before.live_orders().insert((account, id)),
        forall|a: AccountId| #[trigger]
            after.open_orders(a) == before.open_orders(a) + (if a == account {
                1nat
            } else {
                0
            }),
    ensures
        after.lockstep(),
{
    assert forall|a: AccountId| #[trigger] after.in_step(a) by {
        let was = live_of(before.live_orders(), a);
        assert(before.in_step(a));
        if a == account {
            assert(live_of(after.live_orders(), a) =~= was.insert(id));
        } else {
            assert(live_of(after.live_orders(), a) =~= was);
        }
    }
}

proof fn lemma_live_after_close(
    live: Set<(AccountId, OrderId)>,
    freed: Seq<(AccountId, OrderId)>,
    a: AccountId,
)
    requires
        live_of(live, a).finite(),
        freed.no_duplicates(),
        forall|i: int| 0 <= i < freed.len() ==> live.contains(#[trigger] freed[i]),
    ensures
        live_of(live.difference(freed.to_set()), a).finite(),
        live_of(live.difference(freed.to_set()), a).len() + count_of(freed, a) == live_of(
            live,
            a,
        ).len(),
    decreases freed.len(),
{
    let left = live.difference(freed.to_set());
    if freed.len() == 0 {
        assert(left =~= live);
    } else {
        let d = freed.drop_last();
        let (account, id) = freed.last();
        lemma_live_after_close(live, d, a);
        let mid = live.difference(d.to_set());
        assert(freed =~= d.push((account, id)));
        assert forall|k: (AccountId, OrderId)| left.contains(k) <==> mid.contains(k) && k != (
            account,
            id,
        ) by {
            if freed.to_set().contains(k) && k != (account, id) {
                let j = choose|j: int| 0 <= j < freed.len() && freed[j] == k;
                assert(d[j] == k);
            }
            if d.to_set().contains(k) {
                let j = choose|j: int| 0 <= j < d.len() && d[j] == k;
                assert(freed[j] == k);
            }
            assert(freed[freed.len() - 1] == (account, id));
        }
        if account == a {
            assert(live_of(left, a) =~= live_of(mid, a).remove(id));
            assert(live_of(mid, a).contains(id)) by {
                assert(live.contains(freed[freed.len() - 1]));
                if d.to_set().contains((account, id)) {
                    let j = choose|j: int| 0 <= j < d.len() && d[j] == (account, id);
                    assert(freed[j] == freed[freed.len() - 1]);
                }
            }
        } else {
            assert(live_of(left, a) =~= live_of(mid, a));
        }
    }
}

/// Closing live orders, each once, keeps counts and live orders in step.
pub proof fn law_close_keeps_lockstep(
    before: &Exchange,
    after: &Exchange,
    freed: Seq<(AccountId, OrderId)>,
)
    requires
        before.lockstep(),
        freed.no_duplicates(),
        forall|i: int| 0 <= i < freed.len() ==> before.live_orders().contains(#[trigger] freed[i]),
        after.live_orders() == before.live_orders().difference(freed.to_set()),
        forall|a: AccountId| #[trigger]
            after.open_orders(a) == less(before.open_orders(a), count_of(freed, a)),
    ensures
        after.lockstep(),
{
    assert forall|a: AccountId| #[trigger] after.in_step(a) by {
        assert(before.in_step(a));
        lemma_live_after_close(before.live_orders(), freed, a);
    }
}

/// An exchange without orders is in step.
pub proof fn law_empty_is_lockstep(e: &Exchange)
    requires
        e.live_orders() == Set::<(AccountId, OrderId)>::empty(),
        forall|a: AccountId| #[trigger] e.open_orders(a) == 0,
    ensures
        e.lockstep(),
{
    assert forall|a: AccountId| #[trigger] e.in_step(a) by {
        assert(live_of(e.live_orders(), a) =~= Set::<OrderId>::empty());
    }
}

/// Request marks only move forward, and a sequence that was allowed once is
/// not allowed again: under any key but 0, the mark has reached it.
pub proof fn law_marks_move_forward(before: &Exchange, after: &Exchange, key: u64, seq: u64, allowed: bool)
    requires
        allowed == (key == 0 || seq > before.mark(key)),
        after.marks() == (if key != 0 && allowed {
            before.marks().insert(key, seq)
        } else {
            before.marks()
        }),
    ensures
        forall|k: u64| #[trigger] after.mark(k) >= before.mark(k),
        key != 0 ==> seq <= after.mark(key),
        after.mark(0) == before.mark(0),
{
}

/// Whether a price lies within the bands of an instrument, and what it comes
/// to for a quantity within the notional limit.
pub open spec fn price_allowed(policy: InstrumentPolicy, price: Price, quantity: Quantity) -> bool {
    &&& policy.circuit_breaker.price_band_lower matches Some(lower) ==> lower.0 <= price.0
    &&& policy.circuit_breaker.price_band_upper matches Some(upper) ==> price.0 <= upper.0
    &&& policy.risk_limits.max_order_notional matches Some(max) ==> price.0 * quantity.0 <= max
}

/// An admitted order keeps every limit of its instrument and its account. The
/// price of a limit order, and the limit price of a stop-limit order, lie
/// within the bands and come to no more than the notional limit.
pub proof fn law_admitted_order_keeps_every_limit(e: &Exchange, symbol: Symbol, order: Order)
    requires
        e.refusal(symbol, order) is None,
    ensures
        ({
            let policy = e.instruments()[symbol.0];
            &&& e.instruments().dom().contains(symbol.0)
            &&& order.order_type matches OrderType::Limit { price, .. } ==> price_allowed(
                policy,
                price,
                order.quantity,
            )
            &&& order.order_type matches OrderType::StopLimit { limit_price, .. } ==> price_allowed(
                policy,
                limit_price,
                order.quantity,
            )
            &&& policy.risk_limits.max_order_qty matches Some(max) ==> order.quantity.0 <= max.0
            &&& !policy.disabled
            &&& !policy.circuit_breaker.halted
            &&& !e.live_orders().contains((order.account, order.id))
            &&& order.time_in_force == TimeInForce::GTD ==> order.expiry_ns > e.now()
            &&& order.time_in_force != TimeInForce::GTD ==> order.expiry_ns == 0
            &&& e.max_open() == 0 || e.open_orders(order.account) < e.max_open()
        }),
{
}

/// An order that keeps every limit is admitted: nothing else refuses it. A
/// market or stop order names no limit price, so no band and no notional
/// limit applies to it.
pub proof fn law_order_within_every_limit_is_admitted(e: &Exchange, symbol: Symbol, order: Order)
    requires
        e.instruments().dom().contains(symbol.0),
        ({
            let policy = e.instruments()[symbol.0];
            &&& !policy.disabled
            &&& !policy.circuit_breaker.halted
            &&& !e.live_orders().contains((order.account, order.id))
            &&& match order.order_type {
                OrderType::Limit { price, post_only } => price_allowed(
                    policy,
                    price,
                    order.quantity,
                ),
                OrderType::StopLimit { trigger_price, limit_price } => price_allowed(
                    policy,
                    limit_price,
                    order.quantity,
                ),
                OrderType::Market => true,
                OrderType::Stop { trigger_price } => true,
            }
            &&& policy.risk_limits.max_order_qty matches Some(max) ==> order.quantity.0 <= max.0
            &&& if order.time_in_force == TimeInForce::GTD {
                order.expiry_ns > e.now()
            } else {
                order.expiry_ns == 0
            }
            &&& e.max_open() == 0 || e.open_orders(order.account) < e.max_open()
        }),
    ensures
        e.refusal(symbol, order) is None,
{
}

/// Every refusal names what is wrong with the order.
pub proof fn law_refusal_names_the_fault(e: &Exchange, symbol: Symbol, order: Order)
    ensures
        ({
            let policy = e.instruments()[symbol.0];
            match e.refusal(symbol, order) {
                None => true,
                Some(reason) => match reason {
                    RejectReason::UnknownSymbol => !e.instruments().dom().contains(symbol.0),
                    RejectReason::InstrumentDisabled => policy.disabled,
                    RejectReason::DuplicateOrderId => e.live_orders().contains(
                        (order.account, order.id),
                    ),
                    RejectReason::TradingHalted => policy.circuit_breaker.halted,
                    RejectReason::OutsidePriceBand => match order.order_type {
                        OrderType::Limit { price, post_only } => off_band(policy, price),
                        OrderType::StopLimit { trigger_price, limit_price } => off_band(
                            policy,
                            limit_price,
                        ),
                        OrderType::Market => false,
                        OrderType::Stop { trigger_price } => false,
                    },
                    RejectReason::ExceedsMaxOrderQty => {
                        &&& policy.risk_limits.max_order_qty matches Some(max)
                        &&& order.quantity.0 > max.0
                    },
                    RejectReason::ExceedsMaxNotional => {
                        &&& policy.risk_limits.max_order_notional matches Some(max)
                        &&& match order.order_type {
                            OrderType::Limit { price, post_only } => price.0 * order.quantity.0
                                > max,
                            OrderType::StopLimit { trigger_price, limit_price } => limit_price.0
                                * order.quantity.0 > max,
                            OrderType::Market => false,
                            OrderType::Stop { trigger_price } => false,
                        }
                    },
                    RejectReason::InvalidExpiry => if order.time_in_force == TimeInForce::GTD {
                        order.expiry_ns <= e.now()
                    } else {
                        order.expiry_ns != 0
                    },
                    RejectReason::ExceedsMaxOpenOrders => 0 < e.max_open() <= e.open_orders(
                        order.account,
                    ),
                    _ => false,
                },
            }
        }),
{
}

/// Whether a price is below the lower band or above the upper one.
pub open spec fn off_band(policy: InstrumentPolicy, price: Price) -> bool {
    ||| policy.circuit_breaker.price_band_lower matches Some(lower) && price.0 < lower.0
    ||| policy.circuit_breaker.price_band_upper matches Some(upper) && upper.0 < price.0
}

/// Faults are heard of in one order: an unknown instrument, a disabled one, a
/// live order id, a halt, the bands, the quantity, the notional, the expiry
/// and the open orders. A fault that comes first hides those behind it.
pub proof fn law_first_fault_is_named(e: &Exchange, symbol: Symbol, order: Order)
    ensures
        ({
            let policy = e.instruments()[symbol.0];
            let reason = e.refusal(symbol, order);
            let live = e.live_orders().contains((order.account, order.id));
            let priced = match order.order_type {
                OrderType::Limit { price, post_only } => Some(price),
                OrderType::StopLimit { trigger_price, limit_price } => Some(limit_price),
                OrderType::Market => None,
                OrderType::Stop { trigger_price } => None,
            };
            let known = e.instruments().dom().contains(symbol.0);
            let open = known && !policy.disabled && !live && !policy.circuit_breaker.halted;
            let banded = priced matches Some(price) && off_band(policy, price);
            let large = policy.risk_limits.max_order_qty matches Some(max) && max.0
                < order.quantity.0;
            let dear = priced matches Some(price) && (policy.risk_limits.max_order_notional matches Some(
                max,
            ) && max < price.0 * order.quantity.0);
            let stale = if order.time_in_force == TimeInForce::GTD {
                order.expiry_ns <= e.now()
            } else {
                order.expiry_ns != 0
            };
            &&& !known ==> reason == Some(RejectReason::UnknownSymbol)
            &&& known && policy.disabled ==> reason == Some(RejectReason::InstrumentDisabled)
            &&& known && !policy.disabled && live ==> reason == Some(RejectReason::DuplicateOrderId)
            &&& known && !policy.disabled && !live && policy.circuit_breaker.halted ==> reason
                == Some(RejectReason::TradingHalted)
            &&& open && banded ==> reason == Some(RejectReason::OutsidePriceBand)
            &&& open && !banded && large ==> reason == Some(RejectReason::ExceedsMaxOrderQty)
            &&& open && !banded && !large && dear ==> reason == Some(
                RejectReason::ExceedsMaxNotional,
            )
            &&& open && !banded && !large && !dear && stale ==> reason == Some(
                RejectReason::InvalidExpiry,
            )
        }),
{
}

/// A stop-limit order is held to the bands and the notional limit by its limit
/// price just as a limit order at that price is; its trigger price and whether
/// a limit order is post-only play no part.
pub proof fn law_stop_limit_is_checked_as_limit(
    e: &Exchange,
    symbol: Symbol,
    order: Order,
    trigger_price: Price,
    price: Price,
    post_only: bool,
)
    ensures
        e.refusal(
            symbol,
            Order { order_type: OrderType::StopLimit { trigger_price, limit_price: price }, ..order },
        ) == e.refusal(
            symbol,
            Order { order_type: OrderType::Limit { price, post_only }, ..order },
        ),
        e.refusal(symbol, Order { order_type: OrderType::Stop { trigger_price }, ..order })
            == e.refusal(symbol, Order { order_type: OrderType::Market, ..order }),
{
}

pub proof fn lemma_product_fits(a: u64, b: u64)
    ensures
        0 <= a * b <= u128::MAX,
{
    assert(0 <= a * b <= 0xffff_ffff_ffff_ffff * 0xffff_ffff_ffff_ffff) by (nonlinear_arith)
        requires
            0 <= a <= 0xffff_ffff_ffff_ffff,
            0 <= b <= 0xffff_ffff_ffff_ffff,
    ;
}

/// Closed orders of an account are counted over two lists as over each, one
/// for every entry of that account.
pub proof fn law_closed_orders_are_counted(
    a: Seq<(AccountId, OrderId)>,
    b: Seq<(AccountId, OrderId)>,
    key: (AccountId, OrderId),
    account: AccountId,
)
    ensures
        count_of(a + b, account) == count_of(a, account) + count_of(b, account),
        count_of(Seq::empty(), account) == 0,
        key.0 == account ==> count_of(seq![key], account) == 1,
        key.0 != account ==> count_of(seq![key], account) == 0,
    decreases b.len(),
{
    reveal_with_fuel(count_of, 2);
    assert(seq![key].drop_last() =~= Seq::<(AccountId, OrderId)>::empty());
    if b.len() == 0 {
        assert(a + b =~= a);
    } else {
        assert((a + b).drop_last() =~= a + b.drop_last());
        law_closed_orders_are_counted(a, b.drop_last(), key, account);
    }
}

/// No two orders of the exchange share a key.
pub proof fn law_order_keys_are_apart(a: AccountId, i: OrderId, b: AccountId, j: OrderId)
    ensures
        order_key_spec(a, i) == order_key_spec(b, j) ==> a == b && i == j,
        0 <= order_key_spec(a, i) <= u128::MAX,
{
}

/// Whatever is executed, an order that is not refused has its price within the
/// bands and the notional limit: a limit order its price, a stop-limit order
/// its limit price. A market or stop order names neither and is refused for
/// neither.
pub proof fn law_executed_price_is_within_limits(
    e: &Exchange,
    symbol: Symbol,
    order: Order,
    reports: &mut Vec<ExecutionReport>,
    step: ExecuteStep,
)
    requires
        call_ensures(Exchange::execute, (e, symbol, order, reports), step),
    ensures
        step !is Refused ==> {
            let policy = e.instruments()[symbol.0];
            &&& e.instruments().dom().contains(symbol.0)
            &&& final(reports)@ == old(reports)@
            &&& order.order_type matches OrderType::Limit { price, .. } ==> price_allowed(
                policy,
                price,
                order.quantity,
            )
            &&& order.order_type matches OrderType::StopLimit { limit_price, .. } ==> price_allowed(
                policy,
                limit_price,
                order.quantity,
            )
        },
        step is Refused ==> {
            &&& final(reports)@.len() == old(reports)@.len() + 1
            &&& final(reports)@.drop_last() == old(reports)@
            &&& final(reports)@.last() matches ExecutionReport::Rejected {
                order_id,
                symbol: on,
                account,
                reason,
            }
            &&& order_id == order.id
            &&& on == symbol
            &&& account == order.account
            &&& order.order_type is Market || order.order_type is Stop ==> reason
                != RejectReason::OutsidePriceBand && reason != RejectReason::ExceedsMaxNotional
        },
{
    law_refusal_names_the_fault(e, symbol, order);
    assert(step is Refused ==> final(reports)@.drop_last() =~= old(reports)@);
}

/// An admitted order goes to its book with a budget exactly where it buys
/// without a limit price: the amount that was reserved. It is live from then
/// on, and counts once for its own account and for no other. A refused
/// reservation changes nothing but the reports.
pub proof fn law_reserved_order_is_live(
    e: &mut Exchange,
    symbol: Symbol,
    order: Order,
    outcome: Result<(u64, ReservationSlot), RejectReason>,
    reports: &mut Vec<ExecutionReport>,
    request: Option<MatchRequest>,
    other: AccountId,
)
    requires
        call_ensures(Exchange::reserved, (e, symbol, order, outcome, reports), request),
        other != order.account,
    ensures
        request is Some <==> outcome is Ok,
        outcome matches Ok((amount, slot)) ==> {
            let budget = request->0.quote_budget;
            &&& request->0.slot == slot
            &&& order.side == Side::Sell ==> budget is None
            &&& order.order_type is Limit || order.order_type is StopLimit ==> budget is None
            &&& order.side == Side::Buy && order.order_type is Market ==> budget == Some(amount)
            &&& order.side == Side::Buy && order.order_type is Stop ==> budget == Some(amount)
            &&& final(reports)@ == old(reports)@
            &&& final(e).live_orders().contains((order.account, order.id))
            &&& final(e).open_orders(order.account) == old(e).open_orders(order.account) + 1
        },
        outcome matches Err(reason) ==> {
            &&& final(e).live_orders() == old(e).live_orders()
            &&& final(e).open_orders(order.account) == old(e).open_orders(order.account)
            &&& final(reports)@.last() == (ExecutionReport::Rejected {
                order_id: order.id,
                symbol,
                account: order.account,
                reason,
            })
        },
        final(e).open_orders(other) == old(e).open_orders(other),
        final(e).same_rules(old(e)),
{
}

/// Once the rate limiter was asked, an order with a token goes on to its
/// reservation and one without is refused for its rate.
pub proof fn law_token_decides(
    e: &Exchange,
    symbol: Symbol,
    order: Order,
    granted: bool,
    reports: &mut Vec<ExecutionReport>,
    step: ExecuteStep,
)
    requires
        call_ensures(Exchange::rate_checked, (e, symbol, order, granted, reports), step),
    ensures
        granted ==> (step matches ExecuteStep::Reserve { spec } && spec
            == e.instruments()[symbol.0].spec && final(reports)@ == old(reports)@),
        !granted ==> step is Refused && final(reports)@.last() == (ExecutionReport::Rejected {
            order_id: order.id,
            symbol,
            account: order.account,
            reason: RejectReason::ExceedsOrderRate,
        }),
{
}

/// Closing takes every listed order out of the live ones and no other, and an
/// account that none of them is of keeps its count.
pub proof fn law_closing_takes_the_listed_orders(
    e: &mut Exchange,
    freed: &Vec<(AccountId, OrderId)>,
    key: (AccountId, OrderId),
    account: AccountId,
)
    requires
        call_ensures(Exchange::close_orders, (e, freed), ()),
    ensures
        final(e).live_orders().contains(key) <==> old(e).live_orders().contains(key)
            && !freed@.contains(key),
        (forall|i: int| 0 <= i < freed@.len() ==> (#[trigger] freed@[i]).0 != account)
            ==> final(e).open_orders(account) == old(e).open_orders(account),
        final(e).open_orders(account) <= old(e).open_orders(account),
        final(e).same_rules(old(e)),
{
    if forall|i: int| 0 <= i < freed@.len() ==> (#[trigger] freed@[i]).0 != account {
        lemma_none_counted(freed@, account);
    }
    assert(final(e).open_orders(account) == less(
        old(e).open_orders(account),
        count_of(freed@, account),
    ));
}

proof fn lemma_none_counted(freed: Seq<(AccountId, OrderId)>, account: AccountId)
    requires
        forall|i: int| 0 <= i < freed.len() ==> (#[trigger] freed[i]).0 != account,
    ensures
        count_of(freed, account) == 0,
    decreases freed.len(),
{
    if freed.len() > 0 {
        let d = freed.drop_last();
        assert(forall|i: int| 0 <= i < d.len() ==> #[trigger] d[i] == freed[i]);
        lemma_none_counted(d, account);
    }
}

/// Only a GTD order that is on its book is taken off it later, when it expires.
pub proof fn law_only_gtd_orders_expire(order: Order, on_book: bool, expiry: Option<u64>)
    requires
        call_ensures(expiry_to_schedule, (&order, on_book), expiry),
    ensures
        expiry matches Some(ns) ==> on_book && order.time_in_force == TimeInForce::GTD && ns
            == order.expiry_ns && ns > 0,
        order.time_in_force != TimeInForce::GTD || !on_book ==> expiry is None,
        order.time_in_force == TimeInForce::GTD && on_book && order.expiry_ns > 0 ==> expiry
            is Some,
{
}

/// A sequence is allowed once per key, in ascending order, and each key goes
/// its own way. Key 0 is always allowed and leaves no mark.
pub proof fn law_sequences_ascend(e: &mut Exchange, key: u64, seq: u64, allowed: bool, other: u64)
    requires
        call_ensures(Exchange::check_request_seq, (e, key, seq), allowed),
        other != key,
    ensures
        key == 0 ==> allowed && final(e).marks() == old(e).marks(),
        key != 0 && seq <= old(e).mark(key) ==> !allowed && final(e).mark(key) == old(e).mark(key),
        key != 0 && seq > old(e).mark(key) ==> allowed && final(e).mark(key) == seq,
        final(e).mark(other) == old(e).mark(other),
{
}

/// An instrument is looked up as it was last set, or not at all once it is
/// taken out; every other is looked up as before.
pub proof fn law_set_instrument_is_looked_up(
    e: &mut Exchange,
    symbol: Symbol,
    policy: Option<InstrumentPolicy>,
    other: Symbol,
    before: Option<InstrumentPolicy>,
)
    requires
        call_ensures(Exchange::instrument, (&*old(e), other), before),
        call_ensures(Exchange::set_instrument, (e, symbol, policy), ()),
    ensures
        forall|now: Option<InstrumentPolicy>|
            call_ensures(Exchange::instrument, (&*final(e), symbol), now) ==> now == policy,
        forall|now: Option<InstrumentPolicy>|
            other != symbol && call_ensures(Exchange::instrument, (&*final(e), other), now) ==> now
                == before,
{
}

/// Each limit is what it was last set to, and setting one leaves the others.
pub proof fn law_each_limit_is_set_alone(
    e: &mut Exchange,
    f: &mut Exchange,
    g: &mut Exchange,
    max: u32,
    rate: u32,
    burst: u32,
    now_ns: u64,
)
    requires
        call_ensures(Exchange::set_max_open_orders_per_account, (e, max), ()),
        call_ensures(Exchange::set_max_orders_per_second, (f, rate, burst), ()),
        call_ensures(Exchange::set_current_event_ts_ns, (g, now_ns), ()),
    ensures
        final(e).max_open() == max,
        final(e).order_rate() == old(e).order_rate(),
        final(e).now() == old(e).now(),
        final(f).order_rate().0 == rate,
        final(f).order_rate().1 == burst,
        final(f).max_open() == old(f).max_open(),
        final(f).now() == old(f).now(),
        final(g).now() == now_ns,
        final(g).max_open() == old(g).max_open(),
        final(g).order_rate() == old(g).order_rate(),
{
}

/// An admitted order needs a token where both a rate and a burst are set, and
/// else goes on to its reservation at once; a refused one is answered with one
/// rejection, and an admitted one with nothing yet.
pub proof fn law_rate_and_burst_make_a_limit(
    e: &Exchange,
    symbol: Symbol,
    order: Order,
    reports: &mut Vec<ExecutionReport>,
    step: ExecuteStep,
)
    requires
        call_ensures(Exchange::execute, (e, symbol, order, reports), step),
    ensures
        step is Reserve ==> e.order_rate().0 == 0 || e.order_rate().1 == 0,
        step matches ExecuteStep::Reserve { spec } ==> spec == e.instruments()[symbol.0].spec,
        step matches ExecuteStep::TakeToken { account, now_ns, rate, burst } ==> {
            &&& account == order.account
            &&& now_ns == e.now()
            &&& rate > 0 && rate == e.order_rate().0
            &&& burst > 0 && burst == e.order_rate().1
        },
        step !is Refused ==> final(reports)@ == old(reports)@,
        step is Refused ==> {
            &&& final(reports)@.drop_last() == old(reports)@
            &&& final(reports)@.last() matches ExecutionReport::Rejected {
                order_id,
                symbol: traded,
                account,
                ..
            }
            &&& order_id == order.id
            &&& traded == symbol
            &&& account == order.account
        },
{
    if step is Refused {
        let reason = e.refusal(symbol, order)->0;
        assert(old(reports)@.push(rejection(symbol, order, reason)).drop_last() =~= old(reports)@);
    }
}

/// Closing lowers an account's count by one for each listed order of it, and
/// never below none.
pub proof fn law_closing_lowers_the_count(
    e: &mut Exchange,
    freed: &Vec<(AccountId, OrderId)>,
    account: AccountId,
)
    requires
        call_ensures(Exchange::close_orders, (e, freed), ()),
    ensures
        old(e).open_orders(account) >= count_of(freed@, account) ==> final(e).open_orders(account)
            + count_of(freed@, account) == old(e).open_orders(account),
        old(e).open_orders(account) <= count_of(freed@, account) ==> final(e).open_orders(account)
            == 0,
        (forall|i: int| 0 <= i < freed@.len() ==> (#[trigger] freed@[i]).0 == account) ==> count_of(
            freed@,
            account,
        ) == freed@.len(),
{
    assert(final(e).open_orders(account) == less(
        old(e).open_orders(account),
        count_of(freed@, account),
    ));
    if forall|i: int| 0 <= i < freed@.len() ==> (#[trigger] freed@[i]).0 == account {
        lemma_all_counted(freed@, account);
    }
}

proof fn lemma_all_counted(freed: Seq<(AccountId, OrderId)>, account: AccountId)
    requires
        forall|i: int| 0 <= i < freed.len() ==> (#[trigger] freed[i]).0 == account,
    ensures
        count_of(freed, account) == freed.len(),
    decreases freed.len(),
{
    if freed.len() > 0 {
        let d = freed.drop_last();
        assert(forall|i: int| 0 <= i < d.len() ==> #[trigger] d[i] == freed[i]);
        lemma_all_counted(d, account);
        assert(freed.last() == freed[freed.len() - 1]);
    }
}

} // verus!

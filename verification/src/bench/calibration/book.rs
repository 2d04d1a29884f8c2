//! Per-symbol book tracker driven by market data.
//!
//! It resolves executions to the resting order's price and side and tells the
//! best bid and ask of any symbol at any moment. Only price levels live in
//! the books, each with the number of orders resting on it; every order knows
//! its level.

use std::collections::{BTreeMap, HashMap};

use vstd::prelude::*;

use crate::types::Side;
use super::itch::ItchEvent;

verus! {

broadcast use {
    vstd::std_specs::hash::group_hash_axioms,
    vstd::std_specs::btree::group_btree_axioms,
    vstd::laws_cmp::group_laws_cmp,
};

/// One live order.
#[derive(Clone, Copy, Debug, PartialEq, Eq, Structural)]
pub struct OrderState {
    pub stock_locate: u16,
    pub side: Side,
    pub price: u32,
    /// Shares left after cancels and executions.
    pub remaining_shares: u32,
    /// Shares when the order was added.
    pub original_shares: u32,
}

/// Why an event does not apply. None is fatal: they mostly stand for orders
/// that an earlier session left behind.
#[derive(Clone, Copy, Debug, PartialEq, Eq, Structural)]
pub enum TrackerError {
    /// No live order has the reference.
    UnknownOrder { order_ref: u64 },
    /// More shares were asked for than are left.
    ShareUnderflow { order_ref: u64, remaining: u32, requested: u32 },
    /// A new order's reference belongs to a live order.
    NewRefAlreadyExists { new_ref: u64 },
}

/// Number of orders at each price of one symbol.
#[derive(Debug)]
struct SymbolBook {
    bids: BTreeMap<u32, u64>,
    asks: BTreeMap<u32, u64>,
}

impl SymbolBook {
    spec fn levels(self, side: Side) -> Map<u32, u64> {
        match side {
            Side::Buy => self.bids@,
            Side::Sell => self.asks@,
        }
    }
}

/// Whether an order rests at a price of a symbol's side.
pub open spec fn rests_at(state: OrderState, stock_locate: u16, side: Side, price: u32) -> bool {
    state.stock_locate == stock_locate && state.side == side && state.price == price
}

/// The live orders at one price of a symbol's side.
pub open spec fn resting(
    orders: Map<u64, OrderState>,
    stock_locate: u16,
    side: Side,
    price: u32,
) -> Set<u64> {
    orders.dom().filter(|r: u64| rests_at(orders[r], stock_locate, side, price))
}

/// Whether some live order rests at a price of a symbol's side.
pub open spec fn is_quoted(
    orders: Map<u64, OrderState>,
    stock_locate: u16,
    side: Side,
    price: u32,
) -> bool {
    exists|r: u64| #[trigger]
        orders.contains_key(r) && rests_at(orders[r], stock_locate, side, price)
}

/// The state of an order that was just added.
pub open spec fn fresh(stock_locate: u16, side: Side, price: u32, shares: u32) -> OrderState {
    OrderState { stock_locate, side, price, remaining_shares: shares, original_shares: shares }
}

/// What adding an order answers.
pub open spec fn add_result(orders: Map<u64, OrderState>, order_ref: u64) -> Result<
    (),
    TrackerError,
> {
    if orders.contains_key(order_ref) {
        Err(TrackerError::NewRefAlreadyExists { new_ref: order_ref })
    } else {
        Ok(())
    }
}

/// The live orders after adding one: none is replaced.
pub open spec fn added(
    orders: Map<u64, OrderState>,
    order_ref: u64,
    state: OrderState,
) -> Map<u64, OrderState> {
    if orders.contains_key(order_ref) {
        orders
    } else {
        orders.insert(order_ref, state)
    }
}

/// What deleting an order answers.
pub open spec fn delete_result(orders: Map<u64, OrderState>, order_ref: u64) -> Result<
    OrderState,
    TrackerError,
> {
    if orders.contains_key(order_ref) {
        Ok(orders[order_ref])
    } else {
        Err(TrackerError::UnknownOrder { order_ref })
    }
}

/// What taking shares off an order answers: its state afterwards, also where
/// nothing is left of it.
pub open spec fn consume_result(
    orders: Map<u64, OrderState>,
    order_ref: u64,
    shares: u32,
) -> Result<OrderState, TrackerError> {
    let state = orders[order_ref];
    if !orders.contains_key(order_ref) {
        Err(TrackerError::UnknownOrder { order_ref })
    } else if shares > state.remaining_shares {
        Err(
            TrackerError::ShareUnderflow {
                order_ref,
                remaining: state.remaining_shares,
                requested: shares,
            },
        )
    } else {
        Ok(OrderState { remaining_shares: (state.remaining_shares - shares) as u32, ..state })
    }
}

/// The live orders after taking shares off one. One without shares left goes.
pub open spec fn consumed(
    orders: Map<u64, OrderState>,
    order_ref: u64,
    shares: u32,
) -> Map<u64, OrderState> {
    match consume_result(orders, order_ref, shares) {
        Ok(state) => if state.remaining_shares == 0 {
            orders.remove(order_ref)
        } else {
            orders.insert(order_ref, state)
        },
        Err(_) => orders,
    }
}

/// What replacing an order answers: the state of the order that went.
pub open spec fn replace_result(
    orders: Map<u64, OrderState>,
    old_ref: u64,
    new_ref: u64,
) -> Result<OrderState, TrackerError> {
    if !orders.contains_key(old_ref) {
        Err(TrackerError::UnknownOrder { order_ref: old_ref })
    } else if new_ref != old_ref && orders.contains_key(new_ref) {
        Err(TrackerError::NewRefAlreadyExists { new_ref })
    } else {
        Ok(orders[old_ref])
    }
}

/// The live orders after a replacement, which keeps side and symbol. One that
/// is refused changes nothing.
pub open spec fn replaced(
    orders: Map<u64, OrderState>,
    old_ref: u64,
    new_ref: u64,
    new_price: u32,
    new_shares: u32,
) -> Map<u64, OrderState> {
    match replace_result(orders, old_ref, new_ref) {
        Ok(prior) => orders.remove(old_ref).insert(
            new_ref,
            fresh(prior.stock_locate, prior.side, new_price, new_shares),
        ),
        Err(_) => orders,
    }
}

/// Whether an answer names the highest price with a live buy order of a
/// symbol, or that there is none.
pub open spec fn is_best_bid(
    orders: Map<u64, OrderState>,
    stock_locate: u16,
    best: Option<u32>,
) -> bool {
    match best {
        Some(p) => {
            &&& is_quoted(orders, stock_locate, Side::Buy, p)
            &&& forall|q: u32| #[trigger]
                is_quoted(orders, stock_locate, Side::Buy, q) ==> q <= p
        },
        None => forall|q: u32| !#[trigger] is_quoted(orders, stock_locate, Side::Buy, q),
    }
}

/// Whether an answer names the lowest price with a live sell order of a
/// symbol, or that there is none.
pub open spec fn is_best_ask(
    orders: Map<u64, OrderState>,
    stock_locate: u16,
    best: Option<u32>,
) -> bool {
    match best {
        Some(p) => {
            &&& is_quoted(orders, stock_locate, Side::Sell, p)
            &&& forall|q: u32| #[trigger]
                is_quoted(orders, stock_locate, Side::Sell, q) ==> p <= q
        },
        None => forall|q: u32| !#[trigger] is_quoted(orders, stock_locate, Side::Sell, q),
    }
}

/// `BTreeMap::last_key_value` gives the entry of the greatest key, and
/// nothing on an empty map.
#[verifier::external_body]
fn last_key(levels: &BTreeMap<u32, u64>) -> (r: Option<u32>)
    ensures
        match r {
            Some(k) => levels@.contains_key(k) && (forall|j: u32| #[trigger]
                levels@.contains_key(j) ==> j <= k),
            None => levels@ == Map::<u32, u64>::empty(),
        },
{
    levels.last_key_value().map(|(k, _)| *k)
}

/// `BTreeMap::first_key_value` gives the entry of the least key, and nothing
/// on an empty map.
#[verifier::external_body]
fn first_key(levels: &BTreeMap<u32, u64>) -> (r: Option<u32>)
    ensures
        match r {
            Some(k) => levels@.contains_key(k) && (forall|j: u32| #[trigger]
                levels@.contains_key(j) ==> k <= j),
            None => levels@ == Map::<u32, u64>::empty(),
        },
{
    levels.first_key_value().map(|(k, _)| *k)
}

/// The price levels of one symbol's side.
spec fn book_levels(books: Seq<Option<SymbolBook>>, stock_locate: u16, side: Side) -> Map<
    u32,
    u64,
> {
    if stock_locate < books.len() && books[stock_locate as int] is Some {
        books[stock_locate as int]->0.levels(side)
    } else {
        Map::empty()
    }
}

/// Whether some levels count the live orders of one symbol's side.
spec fn counts(
    levels: Map<u32, u64>,
    orders: Map<u64, OrderState>,
    stock_locate: u16,
    side: Side,
) -> bool {
    forall|price: u32|
        {
            let n = resting(orders, stock_locate, side, price).len();
            &&& #[trigger] levels.contains_key(price) <==> n > 0
            &&& n > 0 ==> levels[price] == n
        }
}

/// Whether every book counts its live orders.
spec fn books_ok(books: Seq<Option<SymbolBook>>, orders: Map<u64, OrderState>) -> bool {
    forall|l: u16, side: Side|
        counts(#[trigger] book_levels(books, l, side), orders, l, side)
}

/// Live orders and the price levels that they make.
#[derive(Debug)]
pub struct BookTracker {
    order_map: HashMap<u64, OrderState>,
    books: Vec<Option<SymbolBook>>,
}

impl View for BookTracker {
    type V = Map<u64, OrderState>;

    closed spec fn view(&self) -> Map<u64, OrderState> {
        self.order_map@
    }
}

impl BookTracker {
    /// The live orders are finitely many, and each level counts its own.
    pub open spec fn wf(&self) -> bool {
        &&& self@.dom().finite()
        &&& self.levels_count()
    }

    /// Each level counts its live orders.
    pub closed spec fn levels_count(&self) -> bool {
        books_ok(self.books@, self.order_map@)
    }

    /// A tracker without orders.
    pub fn new() -> (tracker: BookTracker)
        ensures
            tracker.wf(),
            tracker@ == Map::<u64, OrderState>::empty(),
    {
        let tracker = BookTracker {
            order_map: HashMap::new(),
            books: Vec::with_capacity(10_000),
        };
        proof {
            assert forall|l: u16, side: Side, price: u32|
                resting(tracker.order_map@, l, side, price) == Set::<u64>::empty() by {
                assert(resting(tracker.order_map@, l, side, price) =~= Set::empty());
            }
        }
        tracker
    }

    /// Number of live orders.
    pub fn live_order_count(&self) -> (n: usize)
        ensures
            n == self@.len(),
            self@.dom().finite(),
    {
        self.order_map.len()
    }

    /// The best bid of a symbol.
    pub fn best_bid(&self, stock_locate: u16) -> (best: Option<u32>)
        requires
            self.wf(),
        ensures
            is_best_bid(self@, stock_locate, best),
    {
        let ghost levels = book_levels(self.books@, stock_locate, Side::Buy);
        proof {
            lemma_quoted(self.order_map@, levels, stock_locate, Side::Buy);
        }
        if stock_locate as usize >= self.books.len() {
            return None;
        }
        match &self.books[stock_locate as usize] {
            Some(book) => last_key(&book.bids),
            None => None,
        }
    }

    /// The best ask of a symbol.
    pub fn best_ask(&self, stock_locate: u16) -> (best: Option<u32>)
        requires
            self.wf(),
        ensures
            is_best_ask(self@, stock_locate, best),
    {
        let ghost levels = book_levels(self.books@, stock_locate, Side::Sell);
        proof {
            lemma_quoted(self.order_map@, levels, stock_locate, Side::Sell);
        }
        if stock_locate as usize >= self.books.len() {
            return None;
        }
        match &self.books[stock_locate as usize] {
            Some(book) => first_key(&book.asks),
            None => None,
        }
    }

    /// A live order.
    pub fn get(&self, order_ref: u64) -> (r: Option<&OrderState>)
        ensures
            r == (if self@.contains_key(order_ref) {
                Some(&self@[order_ref])
            } else {
                None
            }),
    {
        self.order_map.get(&order_ref)
    }

    /// Puts a new order on the book.
    pub fn add(
        &mut self,
        order_ref: u64,
        stock_locate: u16,
        side: Side,
        price: u32,
        shares: u32,
    ) -> (r: Result<(), TrackerError>)
        requires
            old(self).wf(),
        ensures
            final(self).wf(),
            r == add_result(old(self)@, order_ref),
            final(self)@ == added(old(self)@, order_ref, fresh(stock_locate, side, price, shares)),
    {
        if self.order_map.contains_key(&order_ref) {
            return Err(TrackerError::NewRefAlreadyExists { new_ref: order_ref });
        }
        let state = OrderState {
            stock_locate,
            side,
            price,
            remaining_shares: shares,
            original_shares: shares,
        };
        let ghost before = self.order_map@;
        self.order_map.insert(order_ref, state);
        // The map holds one order more than before, so no level holds as many
        // of the earlier ones as a map can.
        let live: usize = self.order_map.len();
        proof {
            assert(counts(book_levels(self.books@, stock_locate, side), before, stock_locate, side));
            assert(live == before.len() + 1);
            vstd::set_lib::lemma_len_subset(
                resting(before, stock_locate, side, price),
                before.dom(),
            );
        }
        self.increment_level(stock_locate, side, price);
        proof {
            assert forall|l: u16, s: Side|
                counts(#[trigger] book_levels(self.books@, l, s), self.order_map@, l, s) by {
                assert(counts(book_levels(old(self).books@, l, s), before, l, s));
                lemma_insert(book_levels(old(self).books@, l, s), before, order_ref, state, l, s);
            }
        }
        Ok(())
    }

    /// Takes an order off the book and returns it.
    pub fn delete(&mut self, order_ref: u64) -> (r: Result<OrderState, TrackerError>)
        requires
            old(self).wf(),
        ensures
            final(self).wf(),
            r == delete_result(old(self)@, order_ref),
            final(self)@ == old(self)@.remove(order_ref),
    {
        let ghost before = self.order_map@;
        match self.order_map.remove(&order_ref) {
            Some(state) => {
                self.decrement_level(state.stock_locate, state.side, state.price);
                proof {
                    assert forall|l: u16, s: Side|
                        counts(#[trigger] book_levels(self.books@, l, s), self.order_map@, l, s) by {
                        assert(counts(book_levels(old(self).books@, l, s), before, l, s));
                        lemma_remove(book_levels(old(self).books@, l, s), before, order_ref, l, s);
                    }
                }
                Ok(state)
            },
            None => {
                assert(before.remove(order_ref) =~= before);
                Err(TrackerError::UnknownOrder { order_ref })
            },
        }
    }

    /// Takes cancelled shares off an order. An order without shares left goes.
    pub fn cancel_partial(&mut self, order_ref: u64, cancelled_shares: u32) -> (r: Result<
        OrderState,
        TrackerError,
    >)
        requires
            old(self).wf(),
        ensures
            final(self).wf(),
            r == consume_result(old(self)@, order_ref, cancelled_shares),
            final(self)@ == consumed(old(self)@, order_ref, cancelled_shares),
    {
        self.consume_shares(order_ref, cancelled_shares)
    }

    /// Takes executed shares off an order. An order without shares left goes.
    pub fn execute(&mut self, order_ref: u64, executed_shares: u32) -> (r: Result<
        OrderState,
        TrackerError,
    >)
        requires
            old(self).wf(),
        ensures
            final(self).wf(),
            r == consume_result(old(self)@, order_ref, executed_shares),
            final(self)@ == consumed(old(self)@, order_ref, executed_shares),
    {
        self.consume_shares(order_ref, executed_shares)
    }

    /// Takes an order off the book and puts another in its place, on the same
    /// side of the same symbol. Both happen, or neither.
    pub fn replace(&mut self, old_ref: u64, new_ref: u64, new_price: u32, new_shares: u32) -> (r:
        Result<OrderState, TrackerError>)
        requires
            old(self).wf(),
        ensures
            final(self).wf(),
            r == replace_result(old(self)@, old_ref, new_ref),
            final(self)@ == replaced(old(self)@, old_ref, new_ref, new_price, new_shares),
            r is Err ==> final(self)@ == old(self)@,
    {
        if !self.order_map.contains_key(&old_ref) {
            return Err(TrackerError::UnknownOrder { order_ref: old_ref });
        }
        if new_ref != old_ref && self.order_map.contains_key(&new_ref) {
            return Err(TrackerError::NewRefAlreadyExists { new_ref });
        }
        let prior = match self.delete(old_ref) {
            Ok(prior) => prior,
            Err(e) => return Err(e),
        };
        match self.add(new_ref, prior.stock_locate, prior.side, new_price, new_shares) {
            Ok(()) => Ok(prior),
            Err(e) => Err(e),
        }
    }

    fn consume_shares(&mut self, order_ref: u64, shares: u32) -> (r: Result<
        OrderState,
        TrackerError,
    >)
        requires
            old(self).wf(),
        ensures
            final(self).wf(),
            r == consume_result(old(self)@, order_ref, shares),
            final(self)@ == consumed(old(self)@, order_ref, shares),
    {
        let ghost before = self.order_map@;
        let entry = match self.order_map.get(&order_ref) {
            Some(entry) => *entry,
            None => return Err(TrackerError::UnknownOrder { order_ref }),
        };
        if shares > entry.remaining_shares {
            return Err(
                TrackerError::ShareUnderflow {
                    order_ref,
                    remaining: entry.remaining_shares,
                    requested: shares,
                },
            );
        }
        let state = OrderState {
            stock_locate: entry.stock_locate,
            side: entry.side,
            price: entry.price,
            remaining_shares: entry.remaining_shares - shares,
            original_shares: entry.original_shares,
        };
        if state.remaining_shares == 0 {
            self.order_map.remove(&order_ref);
            self.decrement_level(state.stock_locate, state.side, state.price);
            proof {
                assert forall|l: u16, s: Side|
                    counts(#[trigger] book_levels(self.books@, l, s), self.order_map@, l, s) by {
                    assert(counts(book_levels(old(self).books@, l, s), before, l, s));
                    lemma_remove(book_levels(old(self).books@, l, s), before, order_ref, l, s);
                }
            }
        } else {
            self.order_map.insert(order_ref, state);
            proof {
                assert forall|l: u16, s: Side|
                    counts(#[trigger] book_levels(self.books@, l, s), self.order_map@, l, s) by {
                    assert(counts(book_levels(old(self).books@, l, s), before, l, s));
                    lemma_update(book_levels(old(self).books@, l, s), before, order_ref, state, l, s);
                }
            }
        }
        Ok(state)
    }

    fn ensure_book(&mut self, stock_locate: u16)
        ensures
            final(self).order_map == old(self).order_map,
            stock_locate < final(self).books@.len(),
            final(self).books@[stock_locate as int] is Some,
            forall|l: u16, s: Side| #[trigger]
                book_levels(final(self).books@, l, s) == book_levels(old(self).books@, l, s),
    {
        let idx: usize = stock_locate as usize;
        while self.books.len() <= idx
            invariant
                idx == stock_locate,
                self.order_map == old(self).order_map,
                forall|l: u16, s: Side| #[trigger]
                    book_levels(self.books@, l, s) == book_levels(old(self).books@, l, s),
            decreases idx + 1 - self.books@.len(),
        {
            let ghost books = self.books@;
            self.books.push(None);
            assert forall|l: u16, s: Side| #[trigger]
                book_levels(self.books@, l, s) == book_levels(old(self).books@, l, s) by {
                assert(book_levels(self.books@, l, s) == book_levels(books, l, s));
            }
        }
        if self.books[idx].is_none() {
            let ghost books = self.books@;
            self.books[idx] = Some(SymbolBook { bids: BTreeMap::new(), asks: BTreeMap::new() });
            assert forall|l: u16, s: Side| #[trigger]
                book_levels(self.books@, l, s) == book_levels(old(self).books@, l, s) by {
                assert(book_levels(self.books@, l, s) == book_levels(books, l, s));
            }
        }
    }

    fn increment_level(&mut self, stock_locate: u16, side: Side, price: u32)
        requires
            ({
                let levels = book_levels(old(self).books@, stock_locate, side);
                levels.contains_key(price) ==> levels[price] < u64::MAX
            }),
        ensures
            final(self).order_map == old(self).order_map,
            forall|l: u16, s: Side| #[trigger]
                book_levels(final(self).books@, l, s) == (if l == stock_locate && s == side {
                    incremented(book_levels(old(self).books@, l, s), price)
                } else {
                    book_levels(old(self).books@, l, s)
                }),
    {
        self.ensure_book(stock_locate);
        let ghost books = self.books@;
        let ghost levels = book_levels(books, stock_locate, side);
        assert(levels == book_levels(old(self).books@, stock_locate, side));
        if let Some(book) = &mut self.books[stock_locate as usize] {
            match side {
                Side::Buy => {
                    let n: u64 = match book.bids.get(&price) {
                        Some(n) => *n,
                        None => 0,
                    };
                    book.bids.insert(price, n + 1);
                },
                Side::Sell => {
                    let n: u64 = match book.asks.get(&price) {
                        Some(n) => *n,
                        None => 0,
                    };
                    book.asks.insert(price, n + 1);
                },
            }
        }
        proof {
            assert forall|l: u16, s: Side| #[trigger]
                book_levels(self.books@, l, s) == (if l == stock_locate && s == side {
                    incremented(book_levels(old(self).books@, l, s), price)
                } else {
                    book_levels(old(self).books@, l, s)
                }) by {
                assert(book_levels(books, l, s) == book_levels(old(self).books@, l, s));
            }
        }
    }

    fn decrement_level(&mut self, stock_locate: u16, side: Side, price: u32)
        requires
            ({
                let levels = book_levels(old(self).books@, stock_locate, side);
                levels.contains_key(price) ==> levels[price] > 0
            }),
        ensures
            final(self).order_map == old(self).order_map,
            forall|l: u16, s: Side| #[trigger]
                book_levels(final(self).books@, l, s) == (if l == stock_locate && s == side {
                    decremented(book_levels(old(self).books@, l, s), price)
                } else {
                    book_levels(old(self).books@, l, s)
                }),
    {
        if stock_locate as usize >= self.books.len() {
            return;
        }
        if let Some(book) = &mut self.books[stock_locate as usize] {
            match side {
                Side::Buy => {
                    let n: Option<u64> = match book.bids.get(&price) {
                        Some(n) => Some(*n),
                        None => None,
                    };
                    match n {
                        Some(1) => {
                            book.bids.remove(&price);
                        },
                        Some(n) => {
                            book.bids.insert(price, n - 1);
                        },
                        None => {},
                    }
                },
                Side::Sell => {
                    let n: Option<u64> = match book.asks.get(&price) {
                        Some(n) => Some(*n),
                        None => None,
                    };
                    match n {
                        Some(1) => {
                            book.asks.remove(&price);
                        },
                        Some(n) => {
                            book.asks.insert(price, n - 1);
                        },
                        None => {},
                    }
                },
            }
        }
    }

    /// Applies one decoded message. A directory entry and a trade against a
    /// hidden order leave the book alone.
    pub fn apply(&mut self, event: &ItchEvent) -> (r: Result<(), TrackerError>)
        requires
            old(self).wf(),
        ensures
            final(self).wf(),
            final(self)@ == after_event(old(self)@, *event),
            r == event_result(old(self)@, *event),
    {
        match *event {
            ItchEvent::StockDirectory { .. } => Ok(()),
            ItchEvent::HiddenTrade { .. } => Ok(()),
            ItchEvent::AddOrder { stock_locate, order_ref, side, shares, price, .. } => {
                self.add(order_ref, stock_locate, side, price, shares)
            },
            ItchEvent::AddOrderAttributed { stock_locate, order_ref, side, shares, price, .. } => {
                self.add(order_ref, stock_locate, side, price, shares)
            },
            ItchEvent::OrderExecuted { order_ref, shares, .. } => {
                without_state(self.execute(order_ref, shares))
            },
            ItchEvent::OrderExecutedWithPrice { order_ref, shares, .. } => {
                without_state(self.execute(order_ref, shares))
            },
            ItchEvent::OrderCancel { order_ref, cancelled_shares, .. } => {
                without_state(self.cancel_partial(order_ref, cancelled_shares))
            },
            ItchEvent::OrderDelete { order_ref, .. } => without_state(self.delete(order_ref)),
            ItchEvent::OrderReplace { old_order_ref, new_order_ref, shares, price, .. } => {
                without_state(self.replace(old_order_ref, new_order_ref, price, shares))
            },
        }
    }
}

impl Default for BookTracker {
    fn default() -> (tracker: BookTracker)
        ensures
            tracker.wf(),
            tracker@ == Map::<u64, OrderState>::empty(),
    {
        BookTracker::new()
    }
}

fn without_state(r: Result<OrderState, TrackerError>) -> (u: Result<(), TrackerError>)
    ensures
        u == done(r),
{
    match r {
        Ok(_) => Ok(()),
        Err(e) => Err(e),
    }
}

/// An answer without the order's state.
pub open spec fn done(r: Result<OrderState, TrackerError>) -> Result<(), TrackerError> {
    match r {
        Ok(_) => Ok(()),
        Err(e) => Err(e),
    }
}

/// The live orders after one message.
pub open spec fn after_event(orders: Map<u64, OrderState>, event: ItchEvent) -> Map<
    u64,
    OrderState,
> {
    match event {
        ItchEvent::StockDirectory { .. } => orders,
        ItchEvent::HiddenTrade { .. } => orders,
        ItchEvent::AddOrder { stock_locate, order_ref, side, shares, price, .. } => {
            added(orders, order_ref, fresh(stock_locate, side, price, shares))
        },
        ItchEvent::AddOrderAttributed { stock_locate, order_ref, side, shares, price, .. } => {
            added(orders, order_ref, fresh(stock_locate, side, price, shares))
        },
        ItchEvent::OrderExecuted { order_ref, shares, .. } => consumed(orders, order_ref, shares),
        ItchEvent::OrderExecutedWithPrice { order_ref, shares, .. } => {
            consumed(orders, order_ref, shares)
        },
        ItchEvent::OrderCancel { order_ref, cancelled_shares, .. } => {
            consumed(orders, order_ref, cancelled_shares)
        },
        ItchEvent::OrderDelete { order_ref, .. } => orders.remove(order_ref),
        ItchEvent::OrderReplace { old_order_ref, new_order_ref, shares, price, .. } => {
            replaced(orders, old_order_ref, new_order_ref, price, shares)
        },
    }
}

/// What one message is answered.
pub open spec fn event_result(orders: Map<u64, OrderState>, event: ItchEvent) -> Result<
    (),
    TrackerError,
> {
    match event {
        ItchEvent::StockDirectory { .. } => Ok(()),
        ItchEvent::HiddenTrade { .. } => Ok(()),
        ItchEvent::AddOrder { order_ref, .. } => add_result(orders, order_ref),
        ItchEvent::AddOrderAttributed { order_ref, .. } => add_result(orders, order_ref),
        ItchEvent::OrderExecuted { order_ref, shares, .. } => {
            done(consume_result(orders, order_ref, shares))
        },
        ItchEvent::OrderExecutedWithPrice { order_ref, shares, .. } => {
            done(consume_result(orders, order_ref, shares))
        },
        ItchEvent::OrderCancel { order_ref, cancelled_shares, .. } => {
            done(consume_result(orders, order_ref, cancelled_shares))
        },
        ItchEvent::OrderDelete { order_ref, .. } => done(delete_result(orders, order_ref)),
        ItchEvent::OrderReplace { old_order_ref, new_order_ref, .. } => {
            done(replace_result(orders, old_order_ref, new_order_ref))
        },
    }
}

/// Some levels with one order more at a price.
spec fn incremented(levels: Map<u32, u64>, price: u32) -> Map<u32, u64> {
    let n: int = if levels.contains_key(price) {
        levels[price] as int
    } else {
        0
    };
    levels.insert(price, (n + 1) as u64)
}

/// Some levels with one order less at a price. A level without orders goes.
spec fn decremented(levels: Map<u32, u64>, price: u32) -> Map<u32, u64> {
    if !levels.contains_key(price) {
        levels
    } else if levels[price] == 1 {
        levels.remove(price)
    } else {
        levels.insert(price, (levels[price] - 1) as u64)
    }
}

proof fn lemma_quoted(
    orders: Map<u64, OrderState>,
    levels: Map<u32, u64>,
    stock_locate: u16,
    side: Side,
)
    requires
        counts(levels, orders, stock_locate, side),
        orders.dom().finite(),
    ensures
        forall|price: u32| #[trigger]
            is_quoted(orders, stock_locate, side, price) <==> levels.contains_key(price),
{
    assert forall|price: u32| #[trigger]
        is_quoted(orders, stock_locate, side, price) <==> levels.contains_key(price) by {
        let set = resting(orders, stock_locate, side, price);
        if is_quoted(orders, stock_locate, side, price) {
            let r = choose|r: u64| #[trigger]
                orders.contains_key(r) && rests_at(orders[r], stock_locate, side, price);
            assert(set.contains(r));
            if set.len() == 0 {
                set.lemma_len0_is_empty();
            }
        }
        if set.len() > 0 {
            let r = set.choose();
            assert(set.contains(r));
            assert(orders.contains_key(r));
        }
    }
}

proof fn lemma_insert(
    levels: Map<u32, u64>,
    orders: Map<u64, OrderState>,
    order_ref: u64,
    state: OrderState,
    l: u16,
    s: Side,
)
    requires
        counts(levels, orders, l, s),
        orders.dom().finite(),
        !orders.contains_key(order_ref),
        orders.len() < u64::MAX,
    ensures
        counts(
            if state.stock_locate == l && state.side == s {
                incremented(levels, state.price)
            } else {
                levels
            },
            orders.insert(order_ref, state),
            l,
            s,
        ),
{
    let after = orders.insert(order_ref, state);
    assert forall|price: u32|
        resting(after, l, s, price).len() == resting(orders, l, s, price).len() + (if rests_at(
            state,
            l,
            s,
            price,
        ) {
            1int
        } else {
            0
        }) && resting(orders, l, s, price).len() <= orders.len() by {
        let set = resting(orders, l, s, price);
        vstd::set_lib::lemma_len_subset(set, orders.dom());
        if rests_at(state, l, s, price) {
            assert(resting(after, l, s, price) =~= set.insert(order_ref));
        } else {
            assert(resting(after, l, s, price) =~= set);
        }
    }
}

proof fn lemma_update(
    levels: Map<u32, u64>,
    orders: Map<u64, OrderState>,
    order_ref: u64,
    state: OrderState,
    l: u16,
    s: Side,
)
    requires
        counts(levels, orders, l, s),
        orders.contains_key(order_ref),
        rests_at(
            state,
            orders[order_ref].stock_locate,
            orders[order_ref].side,
            orders[order_ref].price,
        ),
    ensures
        counts(levels, orders.insert(order_ref, state), l, s),
{
    let after = orders.insert(order_ref, state);
    assert forall|price: u32| resting(after, l, s, price) == resting(orders, l, s, price) by {
        assert(resting(after, l, s, price) =~= resting(orders, l, s, price));
    }
}

proof fn lemma_remove(
    levels: Map<u32, u64>,
    orders: Map<u64, OrderState>,
    order_ref: u64,
    l: u16,
    s: Side,
)
    requires
        counts(levels, orders, l, s),
        orders.dom().finite(),
        orders.contains_key(order_ref),
    ensures
        counts(
            if orders[order_ref].stock_locate == l && orders[order_ref].side == s {
                decremented(levels, orders[order_ref].price)
            } else {
                levels
            },
            orders.remove(order_ref),
            l,
            s,
        ),
{
    let after = orders.remove(order_ref);
    let state = orders[order_ref];
    assert forall|price: u32|
        resting(after, l, s, price).len() == resting(orders, l, s, price).len() - (if rests_at(
            state,
            l,
            s,
            price,
        ) {
            1int
        } else {
            0
        }) by {
        let set = resting(orders, l, s, price);
        if rests_at(state, l, s, price) {
            assert(set.contains(order_ref));
            assert(resting(after, l, s, price) =~= set.remove(order_ref));
        } else {
            assert(resting(after, l, s, price) =~= set);
        }
    }
}

/// Deleting an order right after adding it leaves the live orders as they
/// were.
pub proof fn law_add_then_delete(
    orders: Map<u64, OrderState>,
    order_ref: u64,
    state: OrderState,
)
    requires
        !orders.contains_key(order_ref),
    ensures
        added(orders, order_ref, state).remove(order_ref) == orders,
        delete_result(added(orders, order_ref, state), order_ref) == Ok::<
            OrderState,
            TrackerError,
        >(state),
{
    assert(added(orders, order_ref, state).remove(order_ref) =~= orders);
}

/// The number of live orders grows by one with each order that is added, and
/// stays where a reference is taken.
pub proof fn law_add_counts(orders: Map<u64, OrderState>, order_ref: u64, state: OrderState)
    requires
        orders.dom().finite(),
    ensures
        added(orders, order_ref, state).dom().finite(),
        added(orders, order_ref, state).len() == orders.len() + (if add_result(
            orders,
            order_ref,
        ) is Ok {
            1int
        } else {
            0
        }),
{
}

/// A replacement is atomic: one that is refused changes nothing, and one that
/// is done swaps one order for another and leaves all others alone.
pub proof fn law_replace_is_atomic(
    orders: Map<u64, OrderState>,
    old_ref: u64,
    new_ref: u64,
    new_price: u32,
    new_shares: u32,
)
    requires
        orders.dom().finite(),
    ensures
        ({
            let after = replaced(orders, old_ref, new_ref, new_price, new_shares);
            &&& replace_result(orders, old_ref, new_ref) is Err ==> after == orders
            &&& replace_result(orders, old_ref, new_ref) is Ok ==> {
                &&& after == added(
                    orders.remove(old_ref),
                    new_ref,
                    fresh(
                        orders[old_ref].stock_locate,
                        orders[old_ref].side,
                        new_price,
                        new_shares,
                    ),
                )
                &&& after.contains_key(new_ref)
                &&& after.contains_key(old_ref) ==> old_ref == new_ref
            }
            &&& after.len() == orders.len()
            &&& forall|r: u64|
                r != old_ref && r != new_ref ==> (#[trigger] after.contains_key(r)
                    <==> orders.contains_key(r)) && after[r] == orders[r]
        }),
{
}

/// Taking shares off an order in two steps leaves what taking them off at
/// once leaves, unless the first step takes all.
pub proof fn law_partials_add_up(
    orders: Map<u64, OrderState>,
    order_ref: u64,
    first: u32,
    second: u32,
)
    requires
        orders.contains_key(order_ref),
        first < orders[order_ref].remaining_shares,
        first + second <= u32::MAX,
        first + second <= orders[order_ref].remaining_shares,
    ensures
        consumed(consumed(orders, order_ref, first), order_ref, second) == consumed(
            orders,
            order_ref,
            (first + second) as u32,
        ),
        consume_result(consumed(orders, order_ref, first), order_ref, second) == consume_result(
            orders,
            order_ref,
            (first + second) as u32,
        ),
{
    assert(consumed(consumed(orders, order_ref, first), order_ref, second) =~= consumed(
        orders,
        order_ref,
        (first + second) as u32,
    ));
}

/// Nothing but adding changes an order's original shares, symbol, side or
/// price, and nothing raises the shares that are left.
pub proof fn law_consuming_only_takes_shares(
    orders: Map<u64, OrderState>,
    order_ref: u64,
    shares: u32,
    other: u64,
)
    requires
        consumed(orders, order_ref, shares).contains_key(other),
    ensures
        orders.contains_key(other),
        ({
            let before = orders[other];
            let after = consumed(orders, order_ref, shares)[other];
            &&& after.original_shares == before.original_shares
            &&& rests_at(after, before.stock_locate, before.side, before.price)
            &&& after.remaining_shares <= before.remaining_shares
            &&& other != order_ref ==> after == before
        }),
{
}

} // verus!

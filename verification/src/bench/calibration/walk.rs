//! Tally of a whole stream of market data, with a book tracker alongside.

use vstd::prelude::*;

use super::book::{BookTracker, OrderState, TrackerError};
use super::itch::ItchEvent;

verus! {

/// The number of live orders is sampled for its peak once per this many
/// events.
pub const PEAK_SAMPLE_EVERY: u64 = 100_000;

/// Number of events of each type, and what the tracker made of them.
#[derive(Clone, Copy, Debug, PartialEq, Eq, Structural)]
pub struct Counts {
    pub stock_dir: u64,
    pub add: u64,
    pub add_attr: u64,
    pub exec_at_rest: u64,
    pub exec_price: u64,
    pub cancel: u64,
    pub delete: u64,
    pub replace: u64,
    pub hidden: u64,
    pub unknown_order: u64,
    pub share_underflow: u64,
    pub new_ref_collision: u64,
    pub peak_live_orders: usize,
}

impl Counts {
    /// Number of events of all types.
    pub open spec fn events(self) -> int {
        self.stock_dir + self.add + self.add_attr + self.exec_at_rest + self.exec_price
            + self.cancel + self.delete + self.replace + self.hidden
    }

    /// Number of events that the tracker refused.
    pub open spec fn refusals(self) -> int {
        self.unknown_order + self.share_underflow + self.new_ref_collision
    }

    /// No events.
    pub open spec fn none() -> Counts {
        Counts {
            stock_dir: 0,
            add: 0,
            add_attr: 0,
            exec_at_rest: 0,
            exec_price: 0,
            cancel: 0,
            delete: 0,
            replace: 0,
            hidden: 0,
            unknown_order: 0,
            share_underflow: 0,
            new_ref_collision: 0,
            peak_live_orders: 0,
        }
    }

    /// These counts with one event more.
    pub open spec fn with_event(self, event: ItchEvent) -> Counts {
        match event {
            ItchEvent::StockDirectory { .. } => Counts {
                stock_dir: (self.stock_dir + 1) as u64,
                ..self
            },
            ItchEvent::AddOrder { .. } => Counts { add: (self.add + 1) as u64, ..self },
            ItchEvent::AddOrderAttributed { .. } => Counts {
                add_attr: (self.add_attr + 1) as u64,
                ..self
            },
            ItchEvent::OrderExecuted { .. } => Counts {
                exec_at_rest: (self.exec_at_rest + 1) as u64,
                ..self
            },
            ItchEvent::OrderExecutedWithPrice { .. } => Counts {
                exec_price: (self.exec_price + 1) as u64,
                ..self
            },
            ItchEvent::OrderCancel { .. } => Counts { cancel: (self.cancel + 1) as u64, ..self },
            ItchEvent::OrderDelete { .. } => Counts { delete: (self.delete + 1) as u64, ..self },
            ItchEvent::OrderReplace { .. } => Counts {
                replace: (self.replace + 1) as u64,
                ..self
            },
            ItchEvent::HiddenTrade { .. } => Counts { hidden: (self.hidden + 1) as u64, ..self },
        }
    }

    /// These counts with one answer of the tracker more.
    pub open spec fn with_answer(self, answer: Result<(), TrackerError>) -> Counts {
        match answer {
            Ok(()) => self,
            Err(TrackerError::UnknownOrder { .. }) => Counts {
                unknown_order: (self.unknown_order + 1) as u64,
                ..self
            },
            Err(TrackerError::ShareUnderflow { .. }) => Counts {
                share_underflow: (self.share_underflow + 1) as u64,
                ..self
            },
            Err(TrackerError::NewRefAlreadyExists { .. }) => Counts {
                new_ref_collision: (self.new_ref_collision + 1) as u64,
                ..self
            },
        }
    }

    /// These counts with a sample of the number of live orders more.
    pub open spec fn with_sample(self, live: int) -> Counts {
        Counts {
            peak_live_orders: if live > self.peak_live_orders {
                live as usize
            } else {
                self.peak_live_orders
            },
            ..self
        }
    }

    /// Number of events of all types.
    pub fn total(&self) -> (n: u64)
        requires
            self.events() <= u64::MAX,
        ensures
            n == self.events(),
    {
        self.stock_dir + self.add + self.add_attr + self.exec_at_rest + self.exec_price
            + self.cancel + self.delete + self.replace + self.hidden
    }

    fn count(&mut self, event: &ItchEvent)
        requires
            old(self).events() < u64::MAX,
        ensures
            *final(self) == old(self).with_event(*event),
    {
        match event {
            ItchEvent::StockDirectory { .. } => self.stock_dir = self.stock_dir + 1,
            ItchEvent::AddOrder { .. } => self.add = self.add + 1,
            ItchEvent::AddOrderAttributed { .. } => self.add_attr = self.add_attr + 1,
            ItchEvent::OrderExecuted { .. } => self.exec_at_rest = self.exec_at_rest + 1,
            ItchEvent::OrderExecutedWithPrice { .. } => self.exec_price = self.exec_price + 1,
            ItchEvent::OrderCancel { .. } => self.cancel = self.cancel + 1,
            ItchEvent::OrderDelete { .. } => self.delete = self.delete + 1,
            ItchEvent::OrderReplace { .. } => self.replace = self.replace + 1,
            ItchEvent::HiddenTrade { .. } => self.hidden = self.hidden + 1,
        }
    }

    fn count_answer(&mut self, answer: &Result<(), TrackerError>)
        requires
            old(self).refusals() < u64::MAX,
        ensures
            *final(self) == old(self).with_answer(*answer),
    {
        match answer {
            Ok(()) => {},
            Err(TrackerError::UnknownOrder { .. }) => self.unknown_order = self.unknown_order + 1,
            Err(TrackerError::ShareUnderflow { .. }) => {
                self.share_underflow = self.share_underflow + 1
            },
            Err(TrackerError::NewRefAlreadyExists { .. }) => {
                self.new_ref_collision = self.new_ref_collision + 1
            },
        }
    }

    fn sample(&mut self, live: usize)
        ensures
            *final(self) == old(self).with_sample(live as int),
    {
        if live > self.peak_live_orders {
            self.peak_live_orders = live;
        }
    }
}

/// A walk over a stream: the tracker and the counts so far.
#[derive(Debug)]
pub struct Walk {
    book: BookTracker,
    counts: Counts,
}

impl Walk {
    /// The tracker is well formed, and no event was refused twice.
    pub closed spec fn wf(&self) -> bool {
        &&& self.book.wf()
        &&& self.counts.refusals() <= self.counts.events() <= u64::MAX
    }

    /// The live orders.
    pub closed spec fn orders(&self) -> Map<u64, OrderState> {
        self.book@
    }

    /// The counts so far.
    pub closed spec fn tally(&self) -> Counts {
        self.counts
    }

    /// A walk at the start of a stream.
    pub fn new() -> (walk: Walk)
        ensures
            walk.wf(),
            walk.orders() == Map::<u64, OrderState>::empty(),
            walk.tally() == Counts::none(),
    {
        Walk {
            book: BookTracker::new(),
            counts: Counts {
                stock_dir: 0,
                add: 0,
                add_attr: 0,
                exec_at_rest: 0,
                exec_price: 0,
                cancel: 0,
                delete: 0,
                replace: 0,
                hidden: 0,
                unknown_order: 0,
                share_underflow: 0,
                new_ref_collision: 0,
                peak_live_orders: 0,
            },
        }
    }

    /// The counts so far.
    pub fn counts(&self) -> (counts: Counts)
        ensures
            counts == self.tally(),
    {
        self.counts
    }

    /// Takes the next event of the stream.
    pub fn step(&mut self, event: &ItchEvent)
        requires
            old(self).wf(),
            old(self).tally().events() < u64::MAX,
        ensures
            final(self).wf(),
            final(self).orders() == super::book::after_event(old(self).orders(), *event),
            final(self).tally() == ({
                let answer = super::book::event_result(old(self).orders(), *event);
                let counted = old(self).tally().with_event(*event).with_answer(answer);
                if counted.events() % (PEAK_SAMPLE_EVERY as int) == 0 {
                    counted.with_sample(final(self).orders().len() as int)
                } else {
                    counted
                }
            }),
            final(self).tally().events() == old(self).tally().events() + 1,
    {
        let answer = self.book.apply(event);
        self.counts.count(event);
        self.counts.count_answer(&answer);
        if self.counts.total() % PEAK_SAMPLE_EVERY == 0 {
            let live: usize = self.book.live_order_count();
            self.counts.sample(live);
        }
    }

    /// Ends the walk: the number of live orders, which counts for the peak.
    pub fn finish(&mut self) -> (live: usize)
        requires
            old(self).wf(),
        ensures
            final(self).wf(),
            final(self).orders() == old(self).orders(),
            live == old(self).orders().len(),
            final(self).tally() == old(self).tally().with_sample(live as int),
    {
        let live: usize = self.book.live_order_count();
        self.counts.sample(live);
        live
    }
}

} // verus!

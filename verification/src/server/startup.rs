//! What a trading node brings to its start: the genesis seed, the account
//! limits it journals on becoming primary, and the sizes it reserves for.

use vstd::prelude::*;

use crate::exchange::trading_event::{TradingEvent, TradingRequest};
use crate::types::{AccountId, CurrencyId, InstrumentSpec, Symbol};

verus! {

/// Startup flags of a trading node.
#[derive(Clone, Copy, Debug, PartialEq, Eq, Structural)]
pub struct StartupConfig {
    /// Accounts to reserve memory for, and to seed in a seeding build.
    pub accounts: u32,
    /// Instruments to reserve memory for, and to seed in a seeding build.
    pub instruments: u32,
    /// Most open orders per account, zero for no limit.
    pub max_orders_per_account: u32,
    /// Sustained orders per second and account, zero for no limit.
    pub max_orders_per_second: u32,
    /// Most orders at once after a quiet period, zero for no limit.
    pub max_orders_burst: u32,
}

/// What the node reserves memory for.
#[derive(Clone, Copy, Debug, PartialEq, Eq, Structural)]
pub struct ExchangeSizing {
    pub accounts: u32,
    pub instruments: u32,
}

/// Events that the node journals itself: `genesis` once, with the journal,
/// and `on_primary` each time it becomes primary.
pub struct StartupEvents {
    pub genesis: Vec<TradingRequest>,
    pub on_primary: Vec<TradingRequest>,
}

/// Balance in every currency that a seeded account starts with.
pub open spec fn seed_amount() -> u64 {
    u64::MAX / 4
}

/// A request without a sequence.
pub open spec fn internal(event: TradingEvent) -> TradingRequest {
    TradingRequest { request_seq: 0, event }
}

/// The `i`-th event of the synthetic seed: the instruments, numbered from 0
/// with two currencies each, then the accounts, numbered from 1.
pub open spec fn seed_event(config: StartupConfig, i: int) -> TradingRequest {
    if i < config.instruments {
        internal(
            TradingEvent::AddInstrument {
                spec: InstrumentSpec {
                    symbol: Symbol(i as u32),
                    base: CurrencyId((i * 2) as u32),
                    quote: CurrencyId((i * 2 + 1) as u32),
                },
            },
        )
    } else {
        internal(
            TradingEvent::ProvisionAccount {
                account: AccountId((i - config.instruments + 1) as u32),
                amount: seed_amount(),
            },
        )
    }
}

/// The synthetic seed.
pub open spec fn seed(config: StartupConfig) -> Seq<TradingRequest> {
    Seq::new(
        (config.instruments + config.accounts) as nat,
        |i: int| seed_event(config, i),
    )
}

/// The event that puts the node's account limits in force.
pub open spec fn limits_event(config: StartupConfig) -> TradingRequest {
    internal(
        TradingEvent::SetAccountLimits {
            max_open_orders_per_account: config.max_orders_per_account,
            max_orders_per_second: config.max_orders_per_second,
            max_orders_burst: config.max_orders_burst,
        },
    )
}

impl Default for StartupConfig {
    fn default() -> (c: StartupConfig)
        ensures
            c == (StartupConfig {
                accounts: 100_000,
                instruments: 100,
                max_orders_per_account: 10_000,
                max_orders_per_second: 1_000,
                max_orders_burst: 5_000,
            }),
    {
        StartupConfig {
            accounts: 100_000,
            instruments: 100,
            max_orders_per_account: 10_000,
            max_orders_per_second: 1_000,
            max_orders_burst: 5_000,
        }
    }
}

impl StartupConfig {
    /// The events of a stock node, which seeds nothing.
    pub fn startup_events(&self) -> (e: StartupEvents)
        ensures
            e.genesis@ == Seq::<TradingRequest>::empty(),
            e.on_primary@ == seq![limits_event(*self)],
    {
        let e = StartupEvents { genesis: Vec::new(), on_primary: vec![self.account_limits()] };
        assert(e.on_primary@ =~= seq![limits_event(*self)]);
        e
    }

    /// The events of a node that seeds its journal or not.
    pub fn startup_events_seeding(&self, seed_accounts: bool) -> (e: StartupEvents)
        requires
            seed_accounts ==> self.instruments <= 0x8000_0000,
        ensures
            e.genesis@ == (if seed_accounts {
                seed(*self)
            } else {
                Seq::empty()
            }),
            e.on_primary@ == seq![limits_event(*self)],
    {
        if seed_accounts {
            self.synthetic_startup_events()
        } else {
            self.startup_events()
        }
    }

    /// The sizes to reserve for, from the counts that a seed would use.
    pub fn sizing(&self) -> (s: ExchangeSizing)
        ensures
            s == (ExchangeSizing { accounts: self.accounts, instruments: self.instruments }),
    {
        ExchangeSizing { accounts: self.accounts, instruments: self.instruments }
    }

    /// The events of a node that seeds its journal.
    pub fn synthetic_startup_events(&self) -> (e: StartupEvents)
        requires
            self.instruments <= 0x8000_0000,
        ensures
            e.genesis@ == seed(*self),
            e.on_primary@ == seq![limits_event(*self)],
    {
        let e = StartupEvents {
            genesis: self.synthetic_genesis(),
            on_primary: vec![self.account_limits()],
        };
        assert(e.on_primary@ =~= seq![limits_event(*self)]);
        e
    }

    /// The synthetic seed: instruments first, so that every account is funded
    /// in the currencies of all of them.
    pub fn synthetic_genesis(&self) -> (events: Vec<TradingRequest>)
        requires
            self.instruments <= 0x8000_0000,
        ensures
            events@ == seed(*self),
    {
        let mut events: Vec<TradingRequest> = Vec::new();
        let mut i: u32 = 0;
        while i < self.instruments
            invariant
                i <= self.instruments <= 0x8000_0000,
                events@.len() == i,
                forall|j: int| 0 <= j < i ==> #[trigger] events@[j] == seed_event(*self, j),
            decreases self.instruments - i,
        {
            events.push(
                TradingRequest::internal(
                    TradingEvent::AddInstrument {
                        spec: InstrumentSpec {
                            symbol: Symbol(i),
                            base: CurrencyId(i * 2),
                            quote: CurrencyId(i * 2 + 1),
                        },
                    },
                ),
            );
            i = i + 1;
        }
        let mut acct: u32 = 0;
        while acct < self.accounts
            invariant
                acct <= self.accounts,
                events@.len() == self.instruments + acct,
                forall|j: int|
                    0 <= j < self.instruments + acct ==> #[trigger] events@[j] == seed_event(
                        *self,
                        j,
                    ),
            decreases self.accounts - acct,
        {
            acct = acct + 1;
            events.push(
                TradingRequest::internal(
                    TradingEvent::ProvisionAccount {
                        account: AccountId(acct),
                        amount: u64::MAX / 4,
                    },
                ),
            );
        }
        assert(events@ =~= seed(*self));
        events
    }

    fn account_limits(&self) -> (r: TradingRequest)
        ensures
            r == limits_event(*self),
    {
        TradingRequest::internal(
            TradingEvent::SetAccountLimits {
                max_open_orders_per_account: self.max_orders_per_account,
                max_orders_per_second: self.max_orders_per_second,
                max_orders_burst: self.max_orders_burst,
            },
        )
    }
}

/// Nothing that a node journals itself carries a request sequence, and the
/// account limits are never part of genesis.
pub proof fn law_startup_events_are_internal(config: StartupConfig, i: int)
    requires
        0 <= i < seed(config).len(),
    ensures
        seed(config)[i].request_seq == 0,
        seed(config)[i].event !is SetAccountLimits,
        limits_event(config).request_seq == 0,
{
}

/// The seed adds every instrument before it provisions the first account.
pub proof fn law_seed_adds_instruments_first(config: StartupConfig, i: int, j: int)
    requires
        0 <= i < seed(config).len(),
        0 <= j < seed(config).len(),
        seed(config)[i].event is AddInstrument,
        seed(config)[j].event is ProvisionAccount,
    ensures
        i < j,
{
}

/// The seed holds each instrument once, under its own number and with two
/// currencies of its own, and each account once, numbered from 1, with a
/// quarter of the largest amount.
pub proof fn law_seed_holds_every_instrument_and_account(config: StartupConfig, i: int, a: int)
    requires
        config.instruments <= 0x8000_0000,
        0 <= i < config.instruments,
        1 <= a <= config.accounts,
    ensures
        seed(config).len() == config.instruments + config.accounts,
        ({
            &&& seed(config)[i].event matches TradingEvent::AddInstrument { spec }
            &&& spec.symbol.0 == i
            &&& spec.base.0 == 2 * i
            &&& spec.quote.0 == 2 * i + 1
        }),
        ({
            &&& seed(config)[config.instruments + a - 1].event
                matches TradingEvent::ProvisionAccount { account, amount }
            &&& account.0 == a
            &&& 4 * amount + 3 == u64::MAX
        }),
{
}

/// The limits that a node puts in force are those of its flags.
pub proof fn law_limits_are_those_of_the_flags(config: StartupConfig)
    ensures
        limits_event(config).event matches TradingEvent::SetAccountLimits {
            max_open_orders_per_account,
            max_orders_per_second,
            max_orders_burst,
        } && max_open_orders_per_account == config.max_orders_per_account && max_orders_per_second
            == config.max_orders_per_second && max_orders_burst == config.max_orders_burst,
{
}

/// A seeding node journals each instrument and account of its seed once, then
/// as primary the limits of its flags; any other node the limits alone.
pub proof fn law_node_journals_its_seed(
    config: &StartupConfig,
    seeding: bool,
    plain: StartupEvents,
    asked: StartupEvents,
    synthetic: StartupEvents,
    sizing: ExchangeSizing,
    i: int,
    a: int,
)
    requires
        config.instruments <= 0x8000_0000,
        0 <= i < config.instruments,
        1 <= a <= config.accounts,
        call_ensures(StartupConfig::startup_events, (config,), plain),
        call_ensures(StartupConfig::startup_events_seeding, (config, seeding), asked),
        call_ensures(StartupConfig::synthetic_startup_events, (config,), synthetic),
        call_ensures(StartupConfig::sizing, (config,), sizing),
    ensures
        plain.genesis@.len() == 0,
        asked.genesis@ == (if seeding {
            synthetic.genesis@
        } else {
            plain.genesis@
        }),
        synthetic.genesis@.len() == config.instruments + config.accounts,
        synthetic.genesis@[i].event matches TradingEvent::AddInstrument { spec } && spec.symbol.0
            == i && spec.base.0 == 2 * i && spec.quote.0 == 2 * i + 1,
        synthetic.genesis@[config.instruments + a - 1].event
            matches TradingEvent::ProvisionAccount { account, amount } && account.0 == a && 4
            * amount + 3 == u64::MAX,
        plain.on_primary@.len() == 1,
        asked.on_primary@ == plain.on_primary@,
        synthetic.on_primary@ == plain.on_primary@,
        plain.on_primary@[0].event matches TradingEvent::SetAccountLimits {
            max_open_orders_per_account,
            max_orders_per_second,
            max_orders_burst,
        } && max_open_orders_per_account == config.max_orders_per_account && max_orders_per_second
            == config.max_orders_per_second && max_orders_burst == config.max_orders_burst,
        sizing.accounts == config.accounts,
        sizing.instruments == config.instruments,
{
    law_seed_holds_every_instrument_and_account(*config, i, a);
    law_limits_are_those_of_the_flags(*config);
}

} // verus!

//! Executor settings. Sizes, prices and rates are in micro-units.
use vstd::prelude::*;

verus! {

/// The executor's settings.
#[derive(Debug)]
pub struct ExecutorCfg {
    /// Inert when false.
    pub enabled: bool,
    /// Take signals up, but place no order.
    pub dry_run: bool,
    pub venue: VenueCfg,
    pub sizing: SizingCfg,
    pub entry: EntryCfg,
    pub exit: ExitCfg,
    pub hold_ms: u64,
    pub risk: RiskCfg,
    pub sim: SimCfg,
    /// The hold offsets that the hold study samples; none means off.
    pub hold_probe_ms: Vec<u64>,
    pub maker_probe: MakerProbeCfg,
    pub price_probe: PriceProbeCfg,
}

/// The maker-exit study.
#[derive(Clone, Copy, Debug, PartialEq, Eq, Structural)]
pub struct MakerProbeCfg {
    pub enabled: bool,
    /// How long the offer rests before it is crossed.
    pub rest_ms: u64,
    /// Whether the offer improves on the ask by a tick, or joins it.
    pub improve_tick: bool,
}

/// The default maker-exit study.
pub open spec fn default_maker_probe() -> MakerProbeCfg {
    MakerProbeCfg { enabled: false, rest_ms: 1500, improve_tick: false }
}

impl Default for MakerProbeCfg {
    fn default() -> (r: MakerProbeCfg)
        ensures
            r == default_maker_probe(),
    {
        MakerProbeCfg { enabled: false, rest_ms: 1500, improve_tick: false }
    }
}

/// The price-trajectory study.
#[derive(Clone, Copy, Debug, PartialEq, Eq, Structural)]
pub struct PriceProbeCfg {
    pub enabled: bool,
    pub window_ms: u64,
    pub step_ms: u64,
    /// How far back the move before the signal is measured.
    pub pre_window_ms: u64,
}

/// The default price-trajectory study.
pub open spec fn default_price_probe() -> PriceProbeCfg {
    PriceProbeCfg {
        enabled: false,
        window_ms: 1000,
        step_ms: 50,
        pre_window_ms: 500,
    }
}

impl Default for PriceProbeCfg {
    fn default() -> (r: PriceProbeCfg)
        ensures
            r == default_price_probe(),
    {
        PriceProbeCfg { enabled: false, window_ms: 1000, step_ms: 50, pre_window_ms: 500 }
    }
}

/// Which venue to trade on, and through what.
#[derive(Debug)]
pub struct VenueCfg {
    pub market: String,
    pub adapter: String,
    pub network: String,
    /// Hard cap on the cost of one order.
    pub max_order_usdc: i64,
    pub key_id: String,
    pub private_key_path: String,
}

/// Whether a venue is chosen by default.
pub open spec fn is_default_venue(r: VenueCfg) -> bool {
    &&& r.market@ == "polymarket"@
    &&& r.adapter@ == "sim"@
    &&& r.network@ == "testnet"@
    &&& r.max_order_usdc == 1_000_000
    &&& r.key_id@.len() == 0
    &&& r.private_key_path@.len() == 0
}

impl Default for VenueCfg {
    fn default() -> (r: VenueCfg)
        ensures
            is_default_venue(r),
    {
        VenueCfg {
            market: "polymarket".to_string(),
            adapter: "sim".to_string(),
            network: "testnet".to_string(),
            max_order_usdc: 1_000_000,
            key_id: String::new(),
            private_key_path: String::new(),
        }
    }
}

/// How large a trade is.
#[derive(Clone, Copy, Debug, PartialEq, Eq, Structural)]
pub struct SizingCfg {
    pub size_shares: i64,
    /// The part of the displayed depth that an order may take.
    pub depth_frac: i64,
}

/// The default sizes.
pub open spec fn default_sizing() -> SizingCfg {
    SizingCfg { size_shares: 20_000_000, depth_frac: 500_000 }
}

impl Default for SizingCfg {
    fn default() -> (r: SizingCfg)
        ensures
            r == default_sizing(),
    {
        SizingCfg { size_shares: 20_000_000, depth_frac: 500_000 }
    }
}

/// How an entry chases the ask.
#[derive(Clone, Copy, Debug, PartialEq, Eq, Structural)]
pub struct EntryCfg {
    pub chase_c: i64,
    pub max_chase_total_c: i64,
    pub max_attempts: u32,
    pub retry_delay_ms: u64,
    pub ttl_ms: u64,
}

/// The default entry.
pub open spec fn default_entry() -> EntryCfg {
    EntryCfg {
        chase_c: 0,
        max_chase_total_c: 10_000,
        max_attempts: 3,
        retry_delay_ms: 100,
        ttl_ms: 1000,
    }
}

impl Default for EntryCfg {
    fn default() -> (r: EntryCfg)
        ensures
            r == default_entry(),
    {
        EntryCfg {
            chase_c: 0,
            max_chase_total_c: 10_000,
            max_attempts: 3,
            retry_delay_ms: 100,
            ttl_ms: 1000,
        }
    }
}

/// How a position is left.
#[derive(Debug)]
pub struct ExitCfg {
    /// "cross" or "reconcile".
    pub mode: String,
    pub retry_interval_ms: u64,
    pub step_c: i64,
    pub max_slip_c: i64,
    pub deadline_buffer_ms: u64,
    pub max_attempts: u32,
    /// The reconciler's period.
    pub cadence_ms: u64,
    /// How long a fresh fill freezes the reconciler.
    pub transit_ms: u64,
    /// How long an entry may be in flight before it counts as lost.
    pub submitted_timeout_ms: u64,
    /// How long to wait before the fill count of a closed order is read.
    pub settle_wait_ms: u64,
}

/// Whether a position is left in the default way.
pub open spec fn is_default_exit(r: ExitCfg) -> bool {
    &&& r.mode@ == "cross"@
    &&& r.retry_interval_ms == 250
    &&& r.step_c == 10_000
    &&& r.max_slip_c == 50_000
    &&& r.deadline_buffer_ms == 5000
    &&& r.max_attempts == 4
    &&& r.cadence_ms == 200
    &&& r.transit_ms == 1000
    &&& r.submitted_timeout_ms == 3000
    &&& r.settle_wait_ms == 150
}

impl Default for ExitCfg {
    fn default() -> (r: ExitCfg)
        ensures
            is_default_exit(r),
    {
        ExitCfg {
            mode: "cross".to_string(),
            retry_interval_ms: 250,
            step_c: 10_000,
            max_slip_c: 50_000,
            deadline_buffer_ms: 5000,
            max_attempts: 4,
            cadence_ms: 200,
            transit_ms: 1000,
            submitted_timeout_ms: 3000,
            settle_wait_ms: 150,
        }
    }
}

/// The limits that a trade must keep.
#[derive(Clone, Copy, Debug)]
pub struct RiskCfg {
    /// The lowest and the highest ask that may be bought.
    pub yes_bucket: (i64, i64),
    pub min_tte_ms: i64,
    pub max_order_notional: i64,
    pub max_trades_per_min: u32,
    pub cooldown_ms: u64,
    pub stale_ms: i64,
    /// The largest net holding, either way, on one market.
    pub max_net_per_market: i64,
    /// The balance under which no entry is made; 0 means off.
    pub min_balance_usd: i64,
}

/// The default limits.
pub open spec fn default_risk() -> RiskCfg {
    RiskCfg {
        yes_bucket: (50_000, 950_000),
        min_tte_ms: 15000,
        max_order_notional: 25_000_000,
        max_trades_per_min: 6,
        cooldown_ms: 2000,
        stale_ms: 1500,
        max_net_per_market: 1_000_000,
        min_balance_usd: 0,
    }
}

impl Default for RiskCfg {
    fn default() -> (r: RiskCfg)
        ensures
            r == default_risk(),
    {
        RiskCfg {
            yes_bucket: (50_000, 950_000),
            min_tte_ms: 15000,
            max_order_notional: 25_000_000,
            max_trades_per_min: 6,
            cooldown_ms: 2000,
            stale_ms: 1500,
            max_net_per_market: 1_000_000,
            min_balance_usd: 0,
        }
    }
}

/// The simulated venue, and the economics of markets whose catalog gives none.
#[derive(Clone, Copy, Debug, PartialEq, Eq, Structural)]
pub struct SimCfg {
    pub fee_rate: i64,
    pub tick_size: i64,
    pub min_order_size: i64,
    pub start_cash_usdc: i64,
    /// Whether what is left near expiry is sold off.
    pub force_liquidity: bool,
    pub force_window_ms: u64,
    pub force_check_ms: u64,
}

/// The default simulated venue.
pub open spec fn default_sim() -> SimCfg {
    SimCfg {
        fee_rate: 70_000,
        tick_size: 10_000,
        min_order_size: 5_000_000,
        start_cash_usdc: 1_000_000_000,
        force_liquidity: true,
        force_window_ms: 30_000,
        force_check_ms: 2000,
    }
}

impl Default for SimCfg {
    fn default() -> (r: SimCfg)
        ensures
            r == default_sim(),
    {
        SimCfg {
            fee_rate: 70_000,
            tick_size: 10_000,
            min_order_size: 5_000_000,
            start_cash_usdc: 1_000_000_000,
            force_liquidity: true,
            force_window_ms: 30_000,
            force_check_ms: 2000,
        }
    }
}

impl Default for ExecutorCfg {
    fn default() -> (r: ExecutorCfg)
        ensures
            !r.enabled,
            !r.dry_run,
            is_default_venue(r.venue),
            r.sizing == default_sizing(),
            r.entry == default_entry(),
            is_default_exit(r.exit),
            r.hold_ms == 1000,
            r.risk == default_risk(),
            r.sim == default_sim(),
            r.hold_probe_ms@.len() == 0,
            r.maker_probe == default_maker_probe(),
            r.price_probe == default_price_probe(),
    {
        ExecutorCfg {
            enabled: false,
            dry_run: false,
            venue: VenueCfg::default(),
            sizing: SizingCfg::default(),
            entry: EntryCfg::default(),
            exit: ExitCfg::default(),
            hold_ms: 1000,
            risk: RiskCfg::default(),
            sim: SimCfg::default(),
            hold_probe_ms: Vec::new(),
            maker_probe: MakerProbeCfg::default(),
            price_probe: PriceProbeCfg::default(),
        }
    }
}

} // verus!

//! What the executor starts with.
use vstd::prelude::*;
use crate::executor::config::ExecutorCfg;
use crate::executor::venue_spec;
use crate::executor::venue_spec::{by_name, polymarket, VenueSpec};
use crate::text::same;

verus! {

/// How orders reach a venue.
#[derive(Clone, Copy, Debug, PartialEq, Eq, Structural)]
pub enum Adapter {
    Sim,
    Kalshi,
}

/// Why the executor does not start.
#[derive(Clone, Copy, Debug, PartialEq, Eq, Structural)]
pub enum StartError {
    /// There is no such adapter.
    Adapter,
    /// The way of leaving a trade that sold more than was held.
    MakerExit,
}

/// What the executor starts with: its adapter, its market, and whether its exits are the
/// reconciler's.
#[derive(Clone, Copy, Debug)]
pub struct Startup {
    pub adapter: Adapter,
    pub spec: VenueSpec,
    pub reconcile: bool,
}

/// The adapter of this name.
pub open spec fn adapter_named(name: Seq<char>) -> Option<Adapter> {
    if name == "sim"@ {
        Some(Adapter::Sim)
    } else if name == "kalshi"@ {
        Some(Adapter::Kalshi)
    } else {
        None
    }
}

/// Settles what the executor starts with; a market that is not known counts as Polymarket.
pub fn startup(cfg: &ExecutorCfg) -> (r: Result<Startup, StartError>)
    ensures
        match r {
            Ok(s) => {
                &&& adapter_named(cfg.venue.adapter@) == Some(s.adapter)
                &&& cfg.exit.mode@ != "maker"@
                &&& s.reconcile == (cfg.exit.mode@ == "reconcile"@)
                &&& match venue_spec::venue_named(cfg.venue.market@) {
                    Some(v) => s.spec == v,
                    None => s.spec == venue_spec::polymarket_spec(),
                }
            },
            Err(StartError::Adapter) => adapter_named(cfg.venue.adapter@) is None,
            Err(StartError::MakerExit) => adapter_named(cfg.venue.adapter@) is Some
                && cfg.exit.mode@ == "maker"@,
        },
{
    let spec = match by_name(cfg.venue.market.as_str()) {
        Some(s) => s,
        None => polymarket(),
    };
    let adapter = if same(cfg.venue.adapter.as_str(), "sim") {
        Adapter::Sim
    } else if same(cfg.venue.adapter.as_str(), "kalshi") {
        Adapter::Kalshi
    } else {
        return Err(StartError::Adapter);
    };
    if same(cfg.exit.mode.as_str(), "maker") {
        return Err(StartError::MakerExit);
    }
    Ok(Startup { adapter, spec, reconcile: same(cfg.exit.mode.as_str(), "reconcile") })
}

/// Whether new entries stop: for good, once the account's real balance was below the floor.
/// A floor of nothing is no floor.
pub fn balance_halts(halted: bool, balance: i64, floor: i64) -> (r: bool)
    ensures
        r == (halted || floor > 0 && balance < floor),
{
    halted || floor > 0 && balance < floor
}

/// The adapters by their names.
pub proof fn law_adapters_by_name(name: Seq<char>)
    ensures
        adapter_named("sim"@) == Some(Adapter::Sim),
        adapter_named("kalshi"@) == Some(Adapter::Kalshi),
        name != "sim"@ && name != "kalshi"@ ==> adapter_named(name) is None,
{
    reveal_strlit("sim");
    reveal_strlit("kalshi");
    assert("sim"@.len() != "kalshi"@.len());
}

} // verus!

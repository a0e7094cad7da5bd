//! How a prediction market lives.
use vstd::prelude::*;
use crate::model::MarketStatus;

verus! {

/// Where a market stands.
#[derive(Clone, Copy, Debug, PartialEq, Eq, Structural)]
pub enum Phase {
    Upcoming,
    Live,
    Expired,
}

/// Where a market stands at an instant.
pub open spec fn phase_at(now: i64, open_ns: i64, close_ns: i64) -> Phase {
    if now < open_ns {
        Phase::Upcoming
    } else if now < close_ns {
        Phase::Live
    } else {
        Phase::Expired
    }
}

/// Where a market stands at an instant.
pub fn phase_of(now: i64, open_ns: i64, close_ns: i64) -> (r: Phase)
    ensures
        r == phase_at(now, open_ns, close_ns),
{
    if now < open_ns {
        Phase::Upcoming
    } else if now < close_ns {
        Phase::Live
    } else {
        Phase::Expired
    }
}

/// The status that a phase is published as.
pub open spec fn status_for(p: Phase) -> MarketStatus {
    match p {
        Phase::Upcoming => MarketStatus::Upcoming,
        Phase::Live => MarketStatus::Live,
        Phase::Expired => MarketStatus::Expired,
    }
}

/// The status that a phase is published as.
pub fn status_of(p: Phase) -> (r: MarketStatus)
    ensures
        r == status_for(p),
{
    match p {
        Phase::Upcoming => MarketStatus::Upcoming,
        Phase::Live => MarketStatus::Live,
        Phase::Expired => MarketStatus::Expired,
    }
}

/// The phase of a market after one look at the clock: one step at most.
pub open spec fn phase_after(p: Phase, open_ns: i64, close_ns: i64, now: i64) -> Phase {
    if p == Phase::Upcoming && now >= open_ns {
        Phase::Live
    } else if p == Phase::Live && now >= close_ns {
        Phase::Expired
    } else {
        p
    }
}

/// The phase of a market after one look at the clock.
pub fn next_phase(p: Phase, open_ns: i64, close_ns: i64, now: i64) -> (r: Phase)
    ensures
        r == phase_after(p, open_ns, close_ns, now),
{
    if p == Phase::Upcoming && now >= open_ns {
        Phase::Live
    } else if p == Phase::Live && now >= close_ns {
        Phase::Expired
    } else {
        p
    }
}

/// Markets only move forward, and not before their time.
pub proof fn law_markets_move_forward(p: Phase, open_ns: i64, close_ns: i64, now: i64)
    ensures
        p == Phase::Expired ==> phase_after(p, open_ns, close_ns, now) == Phase::Expired,
        p == Phase::Live ==> phase_after(p, open_ns, close_ns, now) != Phase::Upcoming,
        p == Phase::Upcoming && phase_after(p, open_ns, close_ns, now) != p ==> now >= open_ns,
        p == Phase::Live && phase_after(p, open_ns, close_ns, now) != p ==> now >= close_ns,
{
}

/// A market is upcoming before it opens, live from then until it closes, and over from then
/// on; it is published as what it is.
pub proof fn law_phases_by_the_clock(now: i64, open_ns: i64, close_ns: i64)
    requires
        open_ns <= close_ns,
    ensures
        phase_at(now, open_ns, close_ns) == Phase::Upcoming <==> now < open_ns,
        phase_at(now, open_ns, close_ns) == Phase::Live <==> open_ns <= now && now < close_ns,
        phase_at(now, open_ns, close_ns) == Phase::Expired <==> close_ns <= now,
        status_for(Phase::Upcoming) == MarketStatus::Upcoming,
        status_for(Phase::Live) == MarketStatus::Live,
        status_for(Phase::Expired) == MarketStatus::Expired,
        now >= open_ns ==> phase_after(Phase::Upcoming, open_ns, close_ns, now) == Phase::Live,
        now >= close_ns ==> phase_after(Phase::Live, open_ns, close_ns, now) == Phase::Expired,
        now < close_ns ==> phase_after(Phase::Live, open_ns, close_ns, now) == Phase::Live,
        now < open_ns ==> phase_after(Phase::Upcoming, open_ns, close_ns, now) == Phase::Upcoming,
{
}

} // verus!

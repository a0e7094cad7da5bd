//! The simulated venue: orders are taken at once against the book, and what is left near
//! expiry is sold off. It makes up no liquidity.
use vstd::prelude::*;
use crate::executor::types::{
    BookDepth,
    Fill,
    FillStatus,
    IntentKind,
    MarketParams,
    OrderIntent,
    VenueOutcome,
};
use crate::executor::types::MatchV;
use crate::fixed;
use crate::fixed::{div_floor, min64, product, sat};
use crate::model::Side;
use crate::numeral;
use crate::numeral::{two_places_text, u64_text};
use crate::strmap;
use crate::strmap::StrMap;
use crate::text::joined;

verus! {

/// The taker fee on a size at a price: `rate * px * (1 - px) * qty`, rounded down.
pub open spec fn fee_of(rate: i64, px: i64, qty: i64) -> i64 {
    fixed::clamp64(
        ((rate * px) * ((1_000_000 - px) * qty)) / 1_000_000_000_000_000_000,
    ) as i64
}

/// The taker fee on a size at a price.
pub fn fee_usdc(rate: i64, px: i64, qty: i64) -> (r: i64)
    ensures
        r == fee_of(rate, px, qty),
{
    let a = product(rate, px);
    let rest: i128 = 1_000_000 - px as i128;
    assert(-170141183460469231731687303715884105727 <= rest * qty
        <= 170141183460469231731687303715884105727) by (nonlinear_arith)
        requires
            -9223372036855775808 <= rest <= 9223372036855775808,
            -9223372036854775808 <= qty <= 9223372036854775808,
    ;
    let b: i128 = rest * qty as i128;
    let ghost full = a * b;
    match a.checked_mul(b) {
        Some(p) => sat(div_floor(p, 1_000_000_000_000_000_000)),
        None => {
            if (a > 0) == (b > 0) {
                assert(full >= 0) by (nonlinear_arith)
                    requires
                        full == a * b,
                        (a > 0 && b > 0) || (a <= 0 && b <= 0),
                ;
                i64::MAX
            } else {
                assert(full <= 0) by (nonlinear_arith)
                    requires
                        full == a * b,
                        (a > 0 && b <= 0) || (a <= 0 && b > 0),
                ;
                i64::MIN
            }
        },
    }
}

/// Whether a level is good enough for an order with this limit.
pub open spec fn reaches(side: Side, px: i64, limit: i64) -> bool {
    match side {
        Side::Buy => px <= limit,
        Side::Sell => px >= limit,
    }
}

fn within_limit(side: Side, px: i64, limit: i64) -> (r: bool)
    ensures
        r == reaches(side, px, limit),
{
    match side {
        Side::Buy => px <= limit,
        Side::Sell => px >= limit,
    }
}

/// What an order takes from a ladder that is best first, as a size and as size times price
/// (1e-12): every level within its limit, as far as its size goes.
pub open spec fn swept(levels: Seq<(i64, i64)>, side: Side, limit: i64, size: int) -> (int, int)
    decreases levels.len(),
{
    if levels.len() == 0 || size <= 0 || levels[0].0 <= 0 || levels[0].1 <= 0 || !reaches(
        side,
        levels[0].0,
        limit,
    ) {
        (0, 0)
    } else {
        let take = fixed::smaller(size, levels[0].1 as int);
        let (q, n) = swept(levels.skip(1), side, limit, size - take);
        (q + take, n + take * levels[0].0)
    }
}

/// An average price, rounded down.
pub open spec fn average(qty: int, notional: int) -> int {
    if qty > 0 {
        notional / qty
    } else {
        0
    }
}

/// Sweeps a ladder: what an order takes, and the average price, rounded down.
fn sweep(levels: &Vec<(i64, i64)>, side: Side, limit: i64, size: i64) -> (r: (i64, i64))
    ensures
        ({
            let (q, n) = swept(levels@, side, limit, size as int);
            r.0 == q && r.1 == average(q, n)
        }),
        0 <= r.0,
        size >= 0 ==> r.0 <= size,
{
    let mut remaining: i64 = size;
    let mut qty: i64 = 0;
    let mut notional: i128 = 0;
    let mut i: usize = 0;
    let ghost (tq, tn) = swept(levels@, side, limit, size as int);
    assert(levels@.skip(0) =~= levels@);
    while i < levels.len() && remaining > 0 && levels[i].0 > 0 && levels[i].1 > 0 && within_limit(
        side,
        levels[i].0,
        limit,
    )
        invariant
            i <= levels@.len(),
            (tq, tn) == ({
                let (q, n) = swept(levels@.skip(i as int), side, limit, remaining as int);
                (q + qty, n + notional)
            }),
            0 <= qty,
            size >= 0 ==> qty + remaining == size && remaining >= 0,
            size < 0 ==> qty == 0 && remaining == size,
            0 <= notional <= qty * 9223372036854775807,
        decreases levels@.len() - i,
    {
        let ghost rest = levels@.skip(i as int);
        let (px, sz): (i64, i64) = levels[i];
        let take = min64(remaining, sz);
        assert(rest[0] == levels@[i as int]);
        assert(rest.skip(1) =~= levels@.skip(i + 1));
        let part = product(take, px);
        assert(0 <= take * px <= take * 9223372036854775807) by (nonlinear_arith)
            requires
                0 < px <= 9223372036854775807,
                0 < take,
        ;
        qty = qty + take;
        notional = notional + part;
        remaining = remaining - take;
        i = i + 1;
    }
    proof {
        let rest = levels@.skip(i as int);
        if rest.len() > 0 {
            assert(rest[0] == levels@[i as int]);
        }
        assert(swept(rest, side, limit, remaining as int) == (0int, 0int));
    }
    if qty > 0 {
        let avg = div_floor(notional, qty as i128);
        assert(0 <= avg <= 9223372036854775807) by {
            assert(0 <= notional as int / qty as int <= 9223372036854775807) by (nonlinear_arith)
                requires
                    0 <= notional <= qty * 9223372036854775807,
                    qty > 0,
            ;
        }
        (qty, avg as i64)
    } else {
        (qty, 0)
    }
}

/// Sells into a bid ladder, highest first, down to a floor: what is sold, and the average
/// price, rounded down.
pub fn sweep_sell(bids: &Vec<(i64, i64)>, size: i64, floor: i64) -> (r: (i64, i64))
    ensures
        ({
            let (q, n) = swept(bids@, Side::Sell, floor, size as int);
            r.0 == q && r.1 == average(q, n)
        }),
{
    sweep(bids, Side::Sell, floor, size)
}

/// What the venue holds open on one instrument.
#[derive(Clone, Copy, Debug, PartialEq, Eq, Structural)]
pub struct NetPos {
    pub qty: i64,
    pub expiry_ns: i64,
    pub fee_rate: i64,
}

/// The simulated venue.
pub struct SimVenue {
    taker_delay_ms: u64,
    force_liquidity: bool,
    force_window_ms: u64,
    force_check_ms: u64,
    net: StrMap<NetPos>,
    seq: u64,
}

/// Why the simulated venue refuses an order.
#[derive(Clone, Copy, Debug, PartialEq, Eq, Structural)]
pub enum SimReject {
    /// It takes immediate orders only.
    Kind,
    /// The size is below the market's smallest order.
    Size,
}

/// Why an order is refused, if it is.
pub open spec fn sim_reject(kind: IntentKind, size: i64, params: MarketParams) -> Option<SimReject> {
    if kind != IntentKind::TakeNow {
        Some(SimReject::Kind)
    } else if size < params.min_order_size {
        Some(SimReject::Size)
    } else {
        None
    }
}

/// The words for a refusal.
pub open spec fn sim_reject_text(e: SimReject, i: OrderIntent) -> Seq<char> {
    match e {
        SimReject::Kind => "sim v1 supports TakeNow (FAK) only"@,
        SimReject::Size => "size "@ + numeral::two_places(i.size as int) + " < min "@
            + numeral::two_places(i.params.min_order_size as int),
    }
}

/// The id after `n`; after the last one, the first.
pub open spec fn id_after(n: u64) -> u64 {
    if n == u64::MAX {
        0
    } else {
        (n + 1) as u64
    }
}

/// The levels that an order takes from.
pub open spec fn levels_for(side: Side, d: BookDepth) -> Seq<(i64, i64)> {
    match side {
        Side::Buy => d.asks@,
        Side::Sell => d.bids@,
    }
}

/// The fill that an order gets from a ladder, under these ids; none where nothing is
/// within its limit.
pub open spec fn sim_fill(
    i: OrderIntent,
    levels: Seq<(i64, i64)>,
    order_no: u64,
    trade_no: u64,
    now_ns: i64,
) -> Option<MatchV> {
    let (q, n) = swept(levels, i.side, i.price, i.size as int);
    let px = average(q, n) as i64;
    if q > 0 {
        Some(
            MatchV {
                venue_trade_id: "sim-trd-"@ + numeral::dec(trade_no as nat),
                order_id: "sim-ord-"@ + numeral::dec(order_no as nat),
                client_id: i.client_id@,
                instrument: i.instrument@,
                status: FillStatus::Confirmed,
                side: i.side,
                qty: q as i64,
                px,
                fee: fee_of(i.params.fee_rate, px, q as i64),
                ts_ns: now_ns,
            },
        )
    } else {
        None
    }
}

/// What the venue holds open, after a fill.
pub open spec fn net_after(
    net: Map<Seq<char>, NetPos>,
    i: OrderIntent,
    f: MatchV,
) -> Map<Seq<char>, NetPos> {
    let q0 = if net.contains_key(i.instrument@) {
        net[i.instrument@].qty
    } else {
        0
    };
    net.insert(
        i.instrument@,
        NetPos {
            qty: fixed::clamp64(
                match f.side {
                    Side::Buy => q0 + f.qty,
                    Side::Sell => q0 - f.qty,
                },
            ) as i64,
            expiry_ns: i.expiry_ns,
            fee_rate: i.params.fee_rate,
        },
    )
}

/// Whether what is held open has to be sold off.
pub open spec fn is_due(p: NetPos, window_ms: u64, now_ns: i64) -> bool {
    p.qty > 0 && p.expiry_ns > 0 && now_ns >= p.expiry_ns - window_ms * 1_000_000
}

/// The fill of a sell-off.
pub open spec fn liquidation(inst: Seq<char>, p: NetPos, bid: i64, no: u64, now_ns: i64) -> MatchV {
    MatchV {
        venue_trade_id: "sim-liq-"@ + numeral::dec(no as nat),
        order_id: "sim-liq-"@ + numeral::dec(no as nat),
        client_id: "liq:"@ + inst,
        instrument: inst,
        status: FillStatus::Confirmed,
        side: Side::Sell,
        qty: p.qty,
        px: bid,
        fee: fee_of(p.fee_rate, bid, p.qty),
        ts_ns: now_ns,
    }
}

impl SimVenue {
    /// What the venue holds open.
    pub closed spec fn net_view(&self) -> Map<Seq<char>, NetPos> {
        self.net@
    }

    /// The next id.
    pub closed spec fn next_no(&self) -> u64 {
        self.seq
    }

    /// How long before expiry the sell-off starts.
    pub closed spec fn window_ms(&self) -> u64 {
        self.force_window_ms
    }

    /// Whether there is a sell-off.
    pub closed spec fn liquidates(&self) -> bool {
        self.force_liquidity
    }

    /// How often the sell-off looks, and how long an order waits.
    pub closed spec fn delays(&self) -> (u64, u64) {
        (self.force_check_ms, self.taker_delay_ms)
    }

    /// A venue that holds nothing.
    pub fn new(
        taker_delay_ms: u64,
        force_liquidity: bool,
        force_window_ms: u64,
        force_check_ms: u64,
    ) -> (r: SimVenue)
        ensures
            r.net_view() == Map::<Seq<char>, NetPos>::empty(),
            r.next_no() == 0,
            r.window_ms() == force_window_ms,
            r.liquidates() == force_liquidity,
            r.delays() == (force_check_ms, taker_delay_ms),
    {
        SimVenue {
            taker_delay_ms,
            force_liquidity,
            force_window_ms,
            force_check_ms,
            net: StrMap::new(),
            seq: 0,
        }
    }

    /// How long an order waits before it is matched.
    pub fn taker_delay_ms(&self) -> (r: u64)
        ensures
            r == self.delays().1,
    {
        self.taker_delay_ms
    }

    /// How often the sell-off looks: `None` where there is none.
    pub fn liquidator_every_ms(&self) -> (r: Option<u64>)
        ensures
            r == if self.liquidates() {
                Some(fixed::larger(self.delays().0 as int, 1) as u64)
            } else {
                None
            },
    {
        if self.force_liquidity {
            Some(
                if self.force_check_ms >= 1 {
                    self.force_check_ms
                } else {
                    1
                },
            )
        } else {
            None
        }
    }

    fn next_id(&mut self) -> (r: u64)
        ensures
            r == old(self).next_no(),
            final(self).next_no() == id_after(old(self).next_no()),
            final(self).net_view() == old(self).net_view(),
            final(self).window_ms() == old(self).window_ms(),
            final(self).liquidates() == old(self).liquidates(),
            final(self).delays() == old(self).delays(),
    {
        let n: u64 = self.seq;
        self.seq = if n == u64::MAX {
            0
        } else {
            n + 1
        };
        n
    }

    /// What the venue holds open on an instrument.
    pub fn net_qty(&self, instrument: &str) -> (r: i64)
        ensures
            r == if self.net_view().contains_key(instrument@) {
                self.net_view()[instrument@].qty
            } else {
                0
            },
    {
        match self.net.get(instrument) {
            Some(n) => n.qty,
            None => 0,
        }
    }

    /// Whether an order is refused; asked before it waits.
    pub fn check(&self, intent: &OrderIntent) -> (r: Option<SimReject>)
        ensures
            r == sim_reject(intent.kind, intent.size, intent.params),
    {
        if intent.kind != IntentKind::TakeNow {
            Some(SimReject::Kind)
        } else if intent.size < intent.params.min_order_size {
            Some(SimReject::Size)
        } else {
            None
        }
    }

    /// Matches an order against the book that stands after its wait: it takes every level
    /// within its limit, as far as its size goes, in one fill at the average price.
    pub fn submit(&mut self, intent: &OrderIntent, book: Option<&BookDepth>, now_ns: i64) -> (r: VenueOutcome)
        ensures
            final(self).window_ms() == old(self).window_ms(),
            final(self).liquidates() == old(self).liquidates(),
            final(self).delays() == old(self).delays(),
            ({
                let e = sim_reject(intent.kind, intent.size, intent.params);
                let no = old(self).next_no();
                let hit = match book {
                    Some(d) => sim_fill(
                        *intent,
                        levels_for(intent.side, *d),
                        no,
                        id_after(no),
                        now_ns,
                    ),
                    None => None,
                };
                match r {
                    VenueOutcome::Rejected(t) => e is Some && t@ == sim_reject_text(e->0, *intent)
                        && final(self).net_view() == old(self).net_view() && final(self).next_no()
                        == no,
                    VenueOutcome::Acked { order_id, fills } => {
                        &&& e is None
                        &&& order_id@ == "sim-ord-"@ + numeral::dec(no as nat)
                        &&& match hit {
                            Some(f) => fills@.len() == 1 && fills@[0]@ == f && final(self).net_view() == net_after(old(self).net_view(), *intent, f) && final(self).next_no() == id_after(id_after(no)),
                            None => fills@.len() == 0 && final(self).net_view() == old(self).net_view() && final(self).next_no() == id_after(no),
                        }
                    },
                }
            }),
    {
        match self.check(intent) {
            Some(SimReject::Kind) => {
                return VenueOutcome::Rejected("sim v1 supports TakeNow (FAK) only".to_string());
            },
            Some(SimReject::Size) => {
                let a = joined("size ", two_places_text(intent.size).as_str());
                let b = joined(a.as_str(), " < min ");
                let c = joined(
                    b.as_str(),
                    two_places_text(intent.params.min_order_size).as_str(),
                );
                return VenueOutcome::Rejected(c);
            },
            None => {},
        }
        let no = self.next_id();
        let order_id = joined("sim-ord-", u64_text(no).as_str());
        let d = match book {
            Some(d) => d,
            None => {
                return VenueOutcome::Acked { order_id, fills: Vec::new() };
            },
        };
        let (qty, px): (i64, i64) = match intent.side {
            Side::Buy => sweep(&d.asks, Side::Buy, intent.price, intent.size),
            Side::Sell => sweep(&d.bids, Side::Sell, intent.price, intent.size),
        };
        let mut fills: Vec<Fill> = Vec::new();
        if qty > 0 {
            let trade_no = self.next_id();
            let f = Fill {
                venue_trade_id: joined("sim-trd-", u64_text(trade_no).as_str()),
                order_id: order_id.clone(),
                client_id: intent.client_id.clone(),
                instrument: intent.instrument.clone(),
                status: FillStatus::Confirmed,
                side: intent.side,
                qty,
                px,
                fee: fee_usdc(intent.params.fee_rate, px, qty),
                ts_ns: now_ns,
            };
            let q0: i64 = match self.net.get(intent.instrument.as_str()) {
                Some(p) => p.qty,
                None => 0,
            };
            let q1 = match intent.side {
                Side::Buy => sat(q0 as i128 + qty as i128),
                Side::Sell => sat(q0 as i128 - qty as i128),
            };
            self.net.insert(
                intent.instrument.clone(),
                NetPos {
                    qty: q1,
                    expiry_ns: intent.expiry_ns,
                    fee_rate: intent.params.fee_rate,
                },
            );
            fills.push(f);
        }
        VenueOutcome::Acked { order_id, fills }
    }

    /// The instruments whose holdings have to be sold off.
    pub fn due(&self, now_ns: i64) -> (r: Vec<String>)
        ensures
            forall|k: Seq<char>|
                (exists|j: int| 0 <= j < r@.len() && (#[trigger] r@[j])@ == k) <==> (
                #[trigger] self.net_view().contains_key(k) && is_due(
                    self.net_view()[k],
                    self.window_ms(),
                    now_ns,
                )),
            forall|a: int, b: int| 0 <= a < b < r@.len() ==> (#[trigger] r@[a])@ != (
            #[trigger] r@[b])@,
    {
        let mut r: Vec<String> = Vec::new();
        self.net.entries_ok();
        let ghost ps = self.net.pairs();
        proof {
            strmap::lemma_map_of(ps);
        }
        let n = self.net.len();
        let mut i: usize = 0;
        while i < n
            invariant
                n == ps.len(),
                ps == self.net.pairs(),
                strmap::distinct_keys(ps),
                self.net@ == strmap::map_of(ps),
                i <= n,
                forall|j: int|
                    0 <= j < r@.len() ==> exists|a: int|
                        0 <= a < i && (#[trigger] ps[a]).0@ == (#[trigger] r@[j])@ && is_due(
                            ps[a].1,
                            self.force_window_ms,
                            now_ns,
                        ),
                forall|a: int|
                    0 <= a < i && is_due((#[trigger] ps[a]).1, self.force_window_ms, now_ns)
                        ==> exists|j: int| 0 <= j < r@.len() && (#[trigger] r@[j])@ == ps[a].0@,
                forall|a: int, b: int| 0 <= a < b < r@.len() ==> (#[trigger] r@[a])@ != (
                #[trigger] r@[b])@,
            decreases n - i,
        {
            let (k, p) = self.net.at(i);
            let window: i128 = self.force_window_ms as i128 * 1_000_000;
            if p.qty > 0 && p.expiry_ns > 0 && now_ns as i128 >= p.expiry_ns as i128 - window {
                let ghost before = r@;
                r.push(k.clone());
                proof {
                    assert(r@[before.len() as int]@ == ps[i as int].0@);
                    assert forall|j: int| 0 <= j < r@.len() implies exists|a: int|
                        0 <= a < i + 1 && (#[trigger] ps[a]).0@ == (#[trigger] r@[j])@ && is_due(
                            ps[a].1,
                            self.force_window_ms,
                            now_ns,
                        ) by {
                        if j < before.len() {
                            assert(r@[j] == before[j]);
                        } else {
                            assert(ps[i as int].0@ == r@[j]@);
                        }
                    }
                    assert forall|a: int|
                        0 <= a < i + 1 && is_due(
                            (#[trigger] ps[a]).1,
                            self.force_window_ms,
                            now_ns,
                        ) implies exists|j: int|
                        0 <= j < r@.len() && (#[trigger] r@[j])@ == ps[a].0@ by {
                        if a < i {
                            let j = choose|j: int|
                                0 <= j < before.len() && (#[trigger] before[j])@ == ps[a].0@;
                            assert(r@[j]@ == ps[a].0@);
                        } else {
                            assert(r@[before.len() as int]@ == ps[a].0@);
                        }
                    }
                    assert forall|a: int, b: int| 0 <= a < b < r@.len() implies (
                    #[trigger] r@[a])@ != (#[trigger] r@[b])@ by {
                        if b == before.len() {
                            assert(r@[a] == before[a]);
                            let c = choose|c: int|
                                0 <= c < i && (#[trigger] ps[c]).0@ == before[a]@;
                            assert(ps[c].0@ != ps[i as int].0@);
                        } else {
                            assert(r@[a] == before[a] && r@[b] == before[b]);
                        }
                    }
                }
            }
            i = i + 1;
        }
        proof {
            assert forall|k: Seq<char>|
                (exists|j: int| 0 <= j < r@.len() && (#[trigger] r@[j])@ == k) <==> (
                #[trigger] self.net_view().contains_key(k) && is_due(
                    self.net_view()[k],
                    self.window_ms(),
                    now_ns,
                )) by {
                if exists|j: int| 0 <= j < r@.len() && (#[trigger] r@[j])@ == k {
                    let j = choose|j: int| 0 <= j < r@.len() && (#[trigger] r@[j])@ == k;
                    let a = choose|a: int|
                        0 <= a < n && (#[trigger] ps[a]).0@ == r@[j]@ && is_due(
                            ps[a].1,
                            self.force_window_ms,
                            now_ns,
                        );
                    assert(strmap::map_of(ps).contains_key(ps[a].0@));
                }
                if self.net_view().contains_key(k) && is_due(
                    self.net_view()[k],
                    self.window_ms(),
                    now_ns,
                ) {
                    let a = choose|a: int| 0 <= a < ps.len() && (#[trigger] ps[a]).0@ == k;
                    assert(is_due(ps[a].1, self.force_window_ms, now_ns));
                }
            }
        }
        r
    }

    /// Sells off what is held open now at the best bid; nothing where nothing is held any
    /// more, or there is no bid.
    pub fn liquidate(&mut self, instrument: &str, bid: i64, now_ns: i64) -> (r: Option<Fill>)
        ensures
            final(self).window_ms() == old(self).window_ms(),
            final(self).liquidates() == old(self).liquidates(),
            final(self).delays() == old(self).delays(),
            ({
                let net = old(self).net_view();
                let p = net[instrument@];
                match r {
                    Some(f) => {
                        &&& bid > 0 && net.contains_key(instrument@) && p.qty > 0
                        &&& f@ == liquidation(instrument@, p, bid, old(self).next_no(), now_ns)
                        &&& final(self).net_view() == net.insert(
                            instrument@,
                            NetPos { qty: 0, ..p },
                        )
                        &&& final(self).next_no() == id_after(old(self).next_no())
                    },
                    None => {
                        &&& bid <= 0 || !net.contains_key(instrument@) || p.qty <= 0
                        &&& final(self).net_view() == net
                        &&& final(self).next_no() == old(self).next_no()
                    },
                }
            }),
    {
        if bid <= 0 {
            return None;
        }
        let found: Option<NetPos> = match self.net.get(instrument) {
            Some(p) => Some(*p),
            None => None,
        };
        let p: NetPos = match found {
            Some(p) => p,
            None => {
                return None;
            },
        };
        if p.qty <= 0 {
            return None;
        }
        self.net.insert(
            instrument.to_string(),
            NetPos { qty: 0, expiry_ns: p.expiry_ns, fee_rate: p.fee_rate },
        );
        let no = self.next_id();
        let id = joined("sim-liq-", u64_text(no).as_str());
        Some(
            Fill {
                venue_trade_id: id.clone(),
                order_id: id,
                client_id: joined("liq:", instrument),
                instrument: instrument.to_string(),
                status: FillStatus::Confirmed,
                side: Side::Sell,
                qty: p.qty,
                px: bid,
                fee: fee_usdc(p.fee_rate, bid, p.qty),
                ts_ns: now_ns,
            },
        )
    }
}

/// An order never takes more than its size, and pays no worse than its limit on average,
/// up to rounding.
pub proof fn law_sweep_keeps_size_and_limit(
    levels: Seq<(i64, i64)>,
    side: Side,
    limit: i64,
    size: int,
)
    requires
        size >= 0,
    ensures
        ({
            let (q, n) = swept(levels, side, limit, size);
            &&& 0 <= q <= size
            &&& match side {
                Side::Buy => n <= q * limit,
                Side::Sell => n >= q * limit,
            }
        }),
    decreases levels.len(),
{
    if levels.len() == 0 || size <= 0 || levels[0].0 <= 0 || levels[0].1 <= 0 || !reaches(
        side,
        levels[0].0,
        limit,
    ) {
        assert(0 * limit == 0) by (nonlinear_arith);
    } else {
        let take = fixed::smaller(size, levels[0].1 as int);
        law_sweep_keeps_size_and_limit(levels.skip(1), side, limit, size - take);
        let (q, n) = swept(levels.skip(1), side, limit, size - take);
        let px = levels[0].0;
        assert((q + take) * limit == q * limit + take * limit) by (nonlinear_arith);
        match side {
            Side::Buy => {
                assert(take * px <= take * limit) by (nonlinear_arith)
                    requires
                        take >= 0,
                        px <= limit,
                ;
            },
            Side::Sell => {
                assert(take * px >= take * limit) by (nonlinear_arith)
                    requires
                        take >= 0,
                        px >= limit,
                ;
            },
        }
    }
}

/// A sell-off is claimed once: after it, the instrument is not due again until something
/// is bought.
pub proof fn law_sell_off_leaves_nothing_due(p: NetPos, window_ms: u64, now_ns: i64)
    ensures
        !is_due(NetPos { qty: 0, ..p }, window_ms, now_ns),
{
}

/// The fee is the rate of the size times the odds, `px` times one less `px`, rounded down; so
/// a price and its complement cost the same, and a sure thing costs nothing.
pub proof fn law_fees_follow_the_odds(rate: i64, px: i64, qty: i64)
    requires
        0 <= rate <= 1_000_000,
        0 <= px <= 1_000_000,
        0 <= qty,
    ensures
        fee_of(rate, px, qty) >= 0,
        fee_of(rate, px, qty) * 1_000_000_000_000_000_000 <= rate * px * (1_000_000 - px) * qty < (
        fee_of(rate, px, qty) + 1) * 1_000_000_000_000_000_000,
        fee_of(rate, (1_000_000 - px) as i64, qty) == fee_of(rate, px, qty),
        px == 0 || px == 1_000_000 || rate == 0 || qty == 0 ==> fee_of(rate, px, qty) == 0,
{
    let r = rate as int;
    let p = px as int;
    let o = 1_000_000 - px;
    let q = qty as int;
    assert((r * p) * (o * q) == r * p * o * q && (r * o) * (p * q) == r * p * o * q)
        by (nonlinear_arith);
    assert(0 <= r * p * o * q <= 1_000_000_000_000_000_000 * q) by (nonlinear_arith)
        requires
            0 <= r <= 1_000_000,
            0 <= p <= 1_000_000,
            0 <= o <= 1_000_000,
            0 <= q,
    {
        assert(0 <= r * p <= 1_000_000_000_000) by (nonlinear_arith)
            requires
                0 <= r <= 1_000_000,
                0 <= p <= 1_000_000,
        ;
        assert(0 <= (r * p) * o <= 1_000_000_000_000_000_000) by (nonlinear_arith)
            requires
                0 <= r * p <= 1_000_000_000_000,
                0 <= o <= 1_000_000,
        ;
        assert(0 <= ((r * p) * o) * q <= 1_000_000_000_000_000_000 * q) by (nonlinear_arith)
            requires
                0 <= (r * p) * o <= 1_000_000_000_000_000_000,
                0 <= q,
        ;
    }
    assert(p == 0 || o == 0 || r == 0 || q == 0 ==> r * p * o * q == 0) by (nonlinear_arith);
}

/// A buy takes from the asks and a sell from the bids. An order takes the best level first,
/// as much as it wants and the level has, and goes on to the next only for the rest; a level
/// beyond the limit, above it for a buy and below it for a sell, is not taken.
pub proof fn law_orders_take_the_best_first(
    levels: Seq<(i64, i64)>,
    limit: i64,
    size: int,
    d: BookDepth,
)
    requires
        levels.len() > 0,
        levels[0].0 > 0 && levels[0].1 > 0,
        size > 0,
    ensures
        levels_for(Side::Buy, d) == d.asks@,
        levels_for(Side::Sell, d) == d.bids@,
        levels[0].0 > limit ==> swept(levels, Side::Buy, limit, size) == (0int, 0int),
        levels[0].0 < limit ==> swept(levels, Side::Sell, limit, size) == (0int, 0int),
        forall|side: Side|
            (if side == Side::Buy {
                levels[0].0 <= limit
            } else {
                levels[0].0 >= limit
            }) ==> {
                &&& size <= levels[0].1 ==> #[trigger] swept(levels, side, limit, size) == (
                    size,
                    size * levels[0].0,
                )
                &&& size > levels[0].1 ==> {
                    let rest = swept(levels.skip(1), side, limit, size - levels[0].1);
                    swept(levels, side, limit, size) == (
                        levels[0].1 + rest.0,
                        levels[0].1 * levels[0].0 + rest.1,
                    )
                }
            },
{
    assert forall|side: Side|
        (if side == Side::Buy {
            levels[0].0 <= limit
        } else {
            levels[0].0 >= limit
        }) && size <= levels[0].1 implies #[trigger] swept(levels, side, limit, size) == (
        size,
        size * levels[0].0,
    ) by {
        assert(swept(levels.skip(1), side, limit, 0) == (0int, 0int));
    }
}

/// A fill is at the average of what was taken, on the order's side and for its instrument;
/// there is one exactly where something was taken.
pub proof fn law_fills_are_of_what_was_taken(
    i: OrderIntent,
    levels: Seq<(i64, i64)>,
    order_no: u64,
    trade_no: u64,
    now_ns: i64,
)
    requires
        i.size > 0,
        swept(levels, i.side, i.price, i.size as int).1 <= i64::MAX * swept(
            levels,
            i.side,
            i.price,
            i.size as int,
        ).0,
        swept(levels, i.side, i.price, i.size as int).1 >= 0,
    ensures
        ({
            let (q, n) = swept(levels, i.side, i.price, i.size as int);
            let f = sim_fill(i, levels, order_no, trade_no, now_ns);
            &&& f is Some <==> q > 0
            &&& f matches Some(x) ==> {
                &&& x.qty == q
                &&& x.px * q <= n < (x.px + 1) * q
                &&& x.side == i.side && x.instrument == i.instrument@ && x.client_id == i.client_id@
                &&& x.fee == fee_of(i.params.fee_rate, x.px, x.qty)
                &&& x.ts_ns == now_ns && x.status == FillStatus::Confirmed
            }
        }),
{
    let (q, n) = swept(levels, i.side, i.price, i.size as int);
    law_sweep_keeps_size_and_limit(levels, i.side, i.price, i.size as int);
    if q > 0 {
        vstd::arithmetic::div_mod::lemma_fundamental_div_mod(n, q);
        let px = n / q;
        assert(px * q <= n < (px + 1) * q) by (nonlinear_arith)
            requires
                n == q * px + n % q,
                0 <= n % q < q,
        ;
        assert(0 <= px <= i64::MAX) by (nonlinear_arith)
            requires
                px * q <= n < (px + 1) * q,
                0 <= n <= i64::MAX * q,
                q > 0,
        ;
    }
}

/// An order is refused where it is not to be taken at once, or is smaller than the least of
/// its market; no other is.
pub proof fn law_what_the_venue_refuses(kind: IntentKind, size: i64, params: MarketParams)
    ensures
        sim_reject(kind, size, params) == Some(SimReject::Kind) <==> kind != IntentKind::TakeNow,
        sim_reject(kind, size, params) == Some(SimReject::Size) <==> kind == IntentKind::TakeNow
            && size < params.min_order_size,
        sim_reject(kind, size, params) is None <==> kind == IntentKind::TakeNow && size
            >= params.min_order_size,
{
}

/// A buy adds to what the venue holds open and a sell takes off, of that instrument only; it
/// is due to be sold off from so long before its end, while there is anything of it.
pub proof fn law_the_venue_nets_buys_and_sells(
    net: Map<Seq<char>, NetPos>,
    i: OrderIntent,
    f: MatchV,
    other: Seq<char>,
    p: NetPos,
    window_ms: u64,
    now_ns: i64,
)
    requires
        other != i.instrument@,
    ensures
        ({
            let n = net_after(net, i, f);
            let q0 = if net.contains_key(i.instrument@) {
                net[i.instrument@].qty as int
            } else {
                0
            };
            let q = n[i.instrument@].qty;
            &&& n.contains_key(i.instrument@)
            &&& f.side == Side::Buy && i64::MIN <= q0 + f.qty <= i64::MAX ==> q == q0 + f.qty
            &&& f.side == Side::Sell && i64::MIN <= q0 - f.qty <= i64::MAX ==> q == q0 - f.qty
            &&& n[i.instrument@].expiry_ns == i.expiry_ns && n[i.instrument@].fee_rate
                == i.params.fee_rate
            &&& n.contains_key(other) <==> net.contains_key(other)
            &&& net.contains_key(other) ==> n[other] == net[other]
        }),
        is_due(p, window_ms, now_ns) <==> p.qty > 0 && p.expiry_ns > 0 && p.expiry_ns - now_ns
            <= window_ms * 1_000_000,
{
}

/// A sell-off sells all that is held open, at the bid.
pub proof fn law_sell_offs_sell_it_all(inst: Seq<char>, p: NetPos, bid: i64, no: u64, now_ns: i64)
    ensures
        liquidation(inst, p, bid, no, now_ns).side == Side::Sell,
        liquidation(inst, p, bid, no, now_ns).qty == p.qty,
        liquidation(inst, p, bid, no, now_ns).px == bid,
        liquidation(inst, p, bid, no, now_ns).instrument == inst,
        liquidation(inst, p, bid, no, now_ns).fee == fee_of(p.fee_rate, bid, p.qty),
        liquidation(inst, p, bid, no, now_ns).status == FillStatus::Confirmed,
{
}

} // verus!

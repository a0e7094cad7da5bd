//! The live venue: what an order is on its yes book, what a request holds, and what an
//! answer says. Sending is left to the caller.
use vstd::prelude::*;
use crate::executor::types::{Fill, FillStatus, IntentKind, OrderIntent, VenueOutcome};
use crate::executor::types::MatchV;
use crate::executor::venue;
use crate::executor::venue::fee_usdc;
use crate::executor::venue_spec;
use crate::executor::venue_spec::market_id_of;
use crate::fixed;
use crate::fixed::{div_floor, product, sat};
use crate::json;
use crate::json::{object, pair, str_field, text_pair, Json};
use crate::json::JsonV;
use crate::model::Side;
use crate::numeral;
use crate::numeral::{parse_micros, push_padded, two_places_text, u64_text};
use crate::text;
use crate::text::{ends_with, joined, same};

verus! {

/// The address of the live exchange.
pub fn prod_base() -> (r: &'static str)
    ensures
        r@ == "https://external-api.kalshi.com/trade-api/v2"@,
{
    "https://external-api.kalshi.com/trade-api/v2"
}

/// The address of the demo exchange, which has accounts of its own.
pub fn demo_base() -> (r: &'static str)
    ensures
        r@ == "https://external-api.demo.kalshi.co/trade-api/v2"@,
{
    "https://external-api.demo.kalshi.co/trade-api/v2"
}

/// The path of orders, which is signed.
pub fn orders_path() -> (r: &'static str)
    ensures
        r@ == "/trade-api/v2/portfolio/events/orders"@,
{
    "/trade-api/v2/portfolio/events/orders"
}

/// The address for a network: the live exchange only under its own name.
pub fn base_of(network: &str) -> (r: &'static str)
    ensures
        r@ == if network@ == "mainnet"@ {
            "https://external-api.kalshi.com/trade-api/v2"@
        } else {
            "https://external-api.demo.kalshi.co/trade-api/v2"@
        },
{
    if same(network, "mainnet") {
        prod_base()
    } else {
        demo_base()
    }
}

/// The signed path of one order that is canceled.
pub fn cancel_path(order_id: &str) -> (r: String)
    ensures
        r@ == "/trade-api/v2/portfolio/events/orders"@ + "/"@ + order_id@,
{
    let a = joined(orders_path(), "/");
    joined(a.as_str(), order_id)
}

/// The signed path of one order that is read.
pub fn order_path(order_id: &str) -> (r: String)
    ensures
        r@ == "/trade-api/v2/portfolio/orders/"@ + order_id@,
{
    joined("/trade-api/v2/portfolio/orders/", order_id)
}

/// An order on the yes book: a bid buys yes, an ask sells yes.
#[derive(Clone, Copy, Debug)]
pub struct KalshiOrder {
    pub side: &'static str,
    /// The price on the yes book, from 1 to 99.
    pub cents: i64,
}

/// Whether an order is on the no side.
pub open spec fn on_no(i: OrderIntent) -> bool {
    text::has_suffix(i.instrument@, ".NO"@)
}

/// Whether an order bids on the yes book: it buys yes or sells no.
pub open spec fn bids(i: OrderIntent) -> bool {
    on_no(i) != (i.side == Side::Buy)
}

/// The price of an order on the yes book.
pub open spec fn yes_px(i: OrderIntent) -> int {
    if on_no(i) {
        1_000_000 - i.price
    } else {
        i.price as int
    }
}

/// Whole cents, rounded down or up.
pub open spec fn cents_of(px: int, up: bool) -> int {
    if up {
        -((-px) / 10_000)
    } else {
        px / 10_000
    }
}

/// `c`, cut to the prices that the book knows.
pub open spec fn book_cents(c: int) -> int {
    if c < 1 {
        1
    } else if c > 99 {
        99
    } else {
        c
    }
}

/// The price of an order in cents: a marketable one is rounded toward the other side of the
/// book, a resting one away from it.
pub open spec fn order_cents(i: OrderIntent, marketable: bool) -> int {
    book_cents(cents_of(yes_px(i), bids(i) == marketable))
}

/// An order on the yes book.
pub fn map_order(intent: &OrderIntent, marketable: bool) -> (r: KalshiOrder)
    ensures
        r.side@ == if bids(*intent) {
            "bid"@
        } else {
            "ask"@
        },
        r.cents == order_cents(*intent, marketable),
{
    let is_no = ends_with(intent.instrument.as_str(), ".NO");
    let buy: bool = intent.side == Side::Buy;
    let yes_bid: bool = is_no != buy;
    let px: i128 = if is_no {
        1_000_000 - intent.price as i128
    } else {
        intent.price as i128
    };
    let c: i128 = if yes_bid == marketable {
        -div_floor(-px, 10_000)
    } else {
        div_floor(px, 10_000)
    };
    let cents: i64 = if c < 1 {
        1
    } else if c > 99 {
        99
    } else {
        c as i64
    };
    KalshiOrder {
        side: if yes_bid {
            "bid"
        } else {
            "ask"
        },
        cents,
    }
}

/// The whole contracts of a size.
pub open spec fn contracts(size: i64) -> int {
    if size > 0 {
        size as int / 1_000_000
    } else {
        0
    }
}

/// Why an order is not sent.
#[derive(Clone, Copy, Debug, PartialEq, Eq, Structural)]
pub enum OrderReject {
    /// Only immediate orders are sent so.
    Kind,
    /// Less than one contract.
    TooSmall,
    /// The cost is above the cap.
    TooLarge,
    /// The instrument names no market.
    NoTicker,
}

/// Why an immediate order is not sent, if it is not.
pub open spec fn ioc_reject(i: OrderIntent, max_order_usdc: i64) -> Option<OrderReject> {
    if i.kind != IntentKind::TakeNow {
        Some(OrderReject::Kind)
    } else if contracts(i.size) < 1 {
        Some(OrderReject::TooSmall)
    } else if order_cents(i, true) * contracts(i.size) * 10_000 > max_order_usdc {
        Some(OrderReject::TooLarge)
    } else if venue_spec::market_id_text(i.instrument@) is None {
        Some(OrderReject::NoTicker)
    } else {
        None
    }
}

/// Why a resting order is not sent, if it is not.
pub open spec fn rest_reject(i: OrderIntent) -> Option<OrderReject> {
    if contracts(i.size) < 1 {
        Some(OrderReject::TooSmall)
    } else if venue_spec::market_id_text(i.instrument@) is None {
        Some(OrderReject::NoTicker)
    } else {
        None
    }
}

/// The words for an order that is not sent.
pub open spec fn reject_words(e: OrderReject, i: OrderIntent, max_order_usdc: i64) -> Seq<char> {
    match e {
        OrderReject::Kind => "kalshi adapter v1 supports TakeNow (IOC) only"@,
        OrderReject::TooSmall => "size "@ + numeral::two_places(i.size as int) + " < 1 contract"@,
        OrderReject::TooLarge => "notional "@ + numeral::two_places(
            fixed::clamp64(order_cents(i, true) * contracts(i.size) * 10_000),
        ) + " > max_order_usdc "@ + numeral::two_places(max_order_usdc as int),
        OrderReject::NoTicker => "no ticker in "@ + i.instrument@,
    }
}

/// A price in dollars, from cents below one dollar.
pub open spec fn price_text(cents: int) -> Seq<char> {
    "0."@ + numeral::padded(cents as nat, 2)
}

/// The fields that every order request starts with.
pub open spec fn order_fields(i: OrderIntent, marketable: bool) -> Seq<(Seq<char>, JsonV)> {
    seq![
        ("ticker"@, JsonV::Str(venue_spec::market_id_text(i.instrument@)->0)),
        ("client_order_id"@, JsonV::Str(i.client_id@)),
        (
            "side"@,
            JsonV::Str(
                if bids(i) {
                    "bid"@
                } else {
                    "ask"@
                },
            ),
        ),
        ("count"@, JsonV::Str(numeral::dec(contracts(i.size) as nat) + ".00"@)),
        ("price"@, JsonV::Str(price_text(order_cents(i, marketable)))),
    ]
}

/// The request for an immediate order.
pub open spec fn ioc_body(i: OrderIntent) -> JsonV {
    JsonV::Obj(
        order_fields(i, true) + seq![
            ("time_in_force"@, JsonV::Str("immediate_or_cancel"@)),
            ("self_trade_prevention_type"@, JsonV::Str("taker_at_cross"@)),
        ],
    )
}

/// The request for a resting order, which is refused where it would cross.
pub open spec fn rest_body(i: OrderIntent) -> JsonV {
    JsonV::Obj(
        order_fields(i, false) + seq![
            ("time_in_force"@, JsonV::Str("good_till_canceled"@)),
            ("post_only"@, JsonV::Bool(true)),
            ("self_trade_prevention_type"@, JsonV::Str("maker"@)),
        ],
    )
}

fn count_of(size: i64) -> (r: i64)
    ensures
        r == contracts(size),
        0 <= r <= 9_223_372_036_855,
{
    if size > 0 {
        size / 1_000_000
    } else {
        0
    }
}

/// The cost of a number of contracts.
fn cost_of(cents: i64, n: i64) -> (r: i128)
    requires
        1 <= cents <= 99,
        0 <= n,
    ensures
        r == cents * n * 10_000,
{
    let p = product(cents, n);
    assert(0 <= cents * n <= 99 * n) by (nonlinear_arith)
        requires
            1 <= cents <= 99,
            0 <= n,
    ;
    p * 10_000
}

fn fields_of(intent: &OrderIntent, marketable: bool, ticker: &str) -> (r: Vec<(String, Json)>)
    requires
        venue_spec::market_id_text(intent.instrument@) == Some(ticker@),
    ensures
        json::field_views(r@) == order_fields(*intent, marketable),
{
    let ko = map_order(intent, marketable);
    let n = count_of(intent.size);
    let count = joined(u64_text(n as u64).as_str(), ".00");
    let mut price = String::new();
    price.append("0.");
    push_padded(&mut price, ko.cents as u64, 2);
    assert(price@ =~= price_text(order_cents(*intent, marketable)));
    let mut r: Vec<(String, Json)> = Vec::new();
    r.push(text_pair("ticker", ticker));
    r.push(text_pair("client_order_id", intent.client_id.as_str()));
    r.push(text_pair("side", ko.side));
    r.push(text_pair("count", count.as_str()));
    r.push(text_pair("price", price.as_str()));
    assert(json::field_views(r@) =~= order_fields(*intent, marketable));
    r
}

/// The request for an immediate order, or why it is not sent.
pub fn ioc_request(intent: &OrderIntent, max_order_usdc: i64) -> (r: Result<Json, OrderReject>)
    ensures
        match r {
            Ok(j) => ioc_reject(*intent, max_order_usdc) is None && j@ == ioc_body(*intent),
            Err(e) => ioc_reject(*intent, max_order_usdc) == Some(e),
        },
{
    if intent.kind != IntentKind::TakeNow {
        return Err(OrderReject::Kind);
    }
    let ko = map_order(intent, true);
    let n = count_of(intent.size);
    if n < 1 {
        return Err(OrderReject::TooSmall);
    }
    let cost = cost_of(ko.cents, n);
    if cost > max_order_usdc as i128 {
        return Err(OrderReject::TooLarge);
    }
    let ticker = match market_id_of(intent.instrument.as_str()) {
        Some(t) => t,
        None => {
            return Err(OrderReject::NoTicker);
        },
    };
    let mut f = fields_of(intent, true, ticker.as_str());
    f.push(text_pair("time_in_force", "immediate_or_cancel"));
    f.push(text_pair("self_trade_prevention_type", "taker_at_cross"));
    assert(json::field_views(f@) =~= ioc_body(*intent)->Obj_0);
    Ok(object(f))
}

/// The request for a resting order, or why it is not sent.
pub fn rest_request(intent: &OrderIntent) -> (r: Result<Json, OrderReject>)
    ensures
        match r {
            Ok(j) => rest_reject(*intent) is None && j@ == rest_body(*intent),
            Err(e) => rest_reject(*intent) == Some(e),
        },
{
    let n = count_of(intent.size);
    if n < 1 {
        return Err(OrderReject::TooSmall);
    }
    let ticker = match market_id_of(intent.instrument.as_str()) {
        Some(t) => t,
        None => {
            return Err(OrderReject::NoTicker);
        },
    };
    let mut f = fields_of(intent, false, ticker.as_str());
    f.push(text_pair("time_in_force", "good_till_canceled"));
    f.push(pair("post_only", Json::Bool(true)));
    f.push(text_pair("self_trade_prevention_type", "maker"));
    assert(json::field_views(f@) =~= rest_body(*intent)->Obj_0);
    Ok(object(f))
}

/// The words for an order that is not sent.
pub fn reject_text(e: OrderReject, intent: &OrderIntent, max_order_usdc: i64) -> (r: String)
    ensures
        r@ == reject_words(e, *intent, max_order_usdc),
{
    match e {
        OrderReject::Kind => "kalshi adapter v1 supports TakeNow (IOC) only".to_string(),
        OrderReject::TooSmall => {
            let a = joined("size ", two_places_text(intent.size).as_str());
            joined(a.as_str(), " < 1 contract")
        },
        OrderReject::TooLarge => {
            let ko = map_order(intent, true);
            let cost = sat(cost_of(ko.cents, count_of(intent.size)));
            let a = joined("notional ", two_places_text(cost).as_str());
            let b = joined(a.as_str(), " > max_order_usdc ");
            joined(b.as_str(), two_places_text(max_order_usdc).as_str())
        },
        OrderReject::NoTicker => joined("no ticker in ", intent.instrument.as_str()),
    }
}

/// The `i`-th part of an answer, which is called `k`: an answer is an object, or the list of
/// its parts in their order.
pub open spec fn part(v: JsonV, i: int, k: Seq<char>) -> Option<JsonV> {
    if v is Arr {
        v.elem(i)
    } else {
        v.field(k)
    }
}

/// A text part that may be missing but not of another kind.
pub open spec fn optional_text(v: JsonV, i: int, k: Seq<char>) -> Option<Seq<char>> {
    match part(v, i, k) {
        None => Some(Seq::empty()),
        Some(JsonV::Str(t)) => Some(t),
        Some(_) => None,
    }
}

/// Whether an answer to an immediate order can be read.
pub open spec fn readable(v: JsonV) -> bool {
    &&& json::text_at(part(v, 0, "order_id"@)) is Some
    &&& optional_text(v, 1, "fill_count"@) is Some
    &&& optional_text(v, 2, "average_fill_price"@) is Some
    &&& optional_text(v, 3, "average_fee_paid"@) is Some
    &&& v.elem(4) is None
}

/// The number that a text spells, or a default.
pub open spec fn number_or(t: Seq<char>, d: i64) -> i64 {
    match json::fit64(numeral::micros(t)) {
        Some(x) => x,
        None => d,
    }
}

/// The fill that an answer reports: at its average price, or at the order's own where it
/// gives none; none where nothing was filled.
pub open spec fn answered_fill(i: OrderIntent, v: JsonV, now_ns: i64) -> Option<MatchV> {
    let qty = number_or(optional_text(v, 1, "fill_count"@)->0, 0);
    let book_px = number_or(
        optional_text(v, 2, "average_fill_price"@)->0,
        (order_cents(i, true) * 10_000) as i64,
    );
    let px = if on_no(i) {
        fixed::clamp64(1_000_000 - book_px) as i64
    } else {
        book_px
    };
    let id = json::text_at(part(v, 0, "order_id"@))->0;
    if qty <= 0 {
        None
    } else {
        Some(
            MatchV {
                venue_trade_id: id,
                order_id: id,
                client_id: i.client_id@,
                instrument: i.instrument@,
                status: FillStatus::Confirmed,
                side: i.side,
                qty,
                px,
                fee: venue::fee_of(i.params.fee_rate, px, qty),
                ts_ns: now_ns,
            },
        )
    }
}

fn part_of<'a>(v: &'a Json, i: usize, k: &str) -> (r: Option<&'a Json>)
    ensures
        json::seen(r) == part(v@, i as int, k@),
{
    match v {
        Json::Arr(_) => v.idx(i),
        _ => v.get(k),
    }
}

fn opt_text(v: &Json, i: usize, k: &str) -> (r: Option<String>)
    ensures
        match r {
            Some(s) => optional_text(v@, i as int, k@) == Some(s@),
            None => optional_text(v@, i as int, k@) is None,
        },
{
    match part_of(v, i, k) {
        None => {
            let s = String::new();
            assert(s@ =~= Seq::<char>::empty());
            Some(s)
        },
        Some(Json::Str(t)) => Some(t.clone()),
        Some(_) => None,
    }
}

/// Reads the answer to an immediate order; `None` where it cannot be read.
pub fn ioc_outcome(intent: &OrderIntent, v: &Json, now_ns: i64) -> (r: Option<VenueOutcome>)
    ensures
        match r {
            None => !readable(v@),
            Some(VenueOutcome::Rejected(_)) => false,
            Some(VenueOutcome::Acked { order_id, fills }) => {
                &&& readable(v@)
                &&& json::text_at(part(v@, 0, "order_id"@)) == Some(order_id@)
                &&& match answered_fill(*intent, v@, now_ns) {
                    Some(f) => fills@.len() == 1 && fills@[0]@ == f,
                    None => fills@.len() == 0,
                }
            },
        },
{
    if v.idx(4).is_some() {
        return None;
    }
    let order_id = match part_of(v, 0, "order_id") {
        Some(Json::Str(t)) => t.clone(),
        _ => {
            return None;
        },
    };
    let (count, price): (String, String) = match (
        opt_text(v, 1, "fill_count"),
        opt_text(v, 2, "average_fill_price"),
        opt_text(v, 3, "average_fee_paid"),
    ) {
        (Some(a), Some(b), Some(_)) => (a, b),
        _ => {
            return None;
        },
    };
    let qty: i64 = match parse_micros(count.as_str()) {
        Some(x) => x,
        None => 0,
    };
    let mut fills: Vec<Fill> = Vec::new();
    if qty > 0 {
        let ko = map_order(intent, true);
        let book_px: i64 = match parse_micros(price.as_str()) {
            Some(x) => x,
            None => ko.cents * 10_000,
        };
        let px: i64 = if ends_with(intent.instrument.as_str(), ".NO") {
            sat(1_000_000 - book_px as i128)
        } else {
            book_px
        };
        fills.push(
            Fill {
                venue_trade_id: order_id.clone(),
                order_id: order_id.clone(),
                client_id: intent.client_id.clone(),
                instrument: intent.instrument.clone(),
                status: FillStatus::Confirmed,
                side: intent.side,
                qty,
                px,
                fee: fee_usdc(intent.params.fee_rate, px, qty),
                ts_ns: now_ns,
            },
        );
    }
    Some(VenueOutcome::Acked { order_id, fills })
}

/// The order of an answer, with or without its wrapper.
pub open spec fn order_in(v: JsonV) -> JsonV {
    match v.field("order"@) {
        Some(o) => o,
        None => v,
    }
}

/// The id in an answer.
pub fn extract_order_id(v: &Json) -> (r: Option<String>)
    ensures
        match r {
            Some(id) => json::text_at(order_in(v@).field("order_id"@)) == Some(id@),
            None => json::text_at(order_in(v@).field("order_id"@)) is None,
        },
{
    let obj = match v.get("order") {
        Some(o) => o,
        None => v,
    };
    match str_field(obj, "order_id") {
        Some(t) => Some(t.to_string()),
        None => None,
    }
}

/// How much of an order filled, as an answer says under either name; 0 where it does not.
pub fn extract_fill_count(v: &Json) -> (r: i64)
    ensures
        r == match json::amount_at(order_in(v@).field("fill_count"@)) {
            Some(x) => x,
            None => match json::amount_at(order_in(v@).field("fill_count_fp"@)) {
                Some(x) => x,
                None => 0,
            },
        },
{
    let obj = match v.get("order") {
        Some(o) => o,
        None => v,
    };
    match json::amount_field(obj, "fill_count") {
        Some(x) => x,
        None => match json::amount_field(obj, "fill_count_fp") {
            Some(x) => x,
            None => 0,
        },
    }
}

/// By how much a cancel reduced an order, as an answer says under either name.
pub fn extract_reduced(v: &Json) -> (r: Option<i64>)
    ensures
        r == match json::amount_at(order_in(v@).field("reduced_by"@)) {
            Some(x) => Some(x),
            None => json::amount_at(order_in(v@).field("reduced_by_fp"@)),
        },
{
    let obj = match v.get("order") {
        Some(o) => o,
        None => v,
    };
    match json::amount_field(obj, "reduced_by") {
        Some(x) => Some(x),
        None => json::amount_field(obj, "reduced_by_fp"),
    }
}

/// The balance that an answer gives in cents, in micro-units.
pub fn extract_balance(v: &Json) -> (r: Option<i64>)
    ensures
        r == match json::integer_at(v@.field("balance"@)) {
            Some(c) => Some(fixed::clamp64(c * 10_000) as i64),
            None => None,
        },
{
    match json::i64_field(v, "balance") {
        Some(c) => Some(sat(c as i128 * 10_000)),
        None => None,
    }
}

/// A marketable order reaches at least as far into the book as its price, and a resting
/// one no further; prices outside of the book's range are cut to it.
pub proof fn law_rounding_goes_the_right_way(i: OrderIntent)
    requires
        10_000 <= yes_px(i) <= 990_000,
    ensures
        bids(i) ==> order_cents(i, true) * 10_000 >= yes_px(i) && order_cents(i, false) * 10_000
            <= yes_px(i),
        !bids(i) ==> order_cents(i, true) * 10_000 <= yes_px(i) && order_cents(i, false) * 10_000
            >= yes_px(i),
{
}

/// Buying one side of a market and selling the other at the complementary price are the
/// same order on the yes book.
pub proof fn law_complementary_orders_agree(a: OrderIntent, b: OrderIntent, marketable: bool)
    requires
        on_no(a) != on_no(b),
        a.side != b.side,
        a.price + b.price == 1_000_000,
    ensures
        bids(a) == bids(b),
        order_cents(a, marketable) == order_cents(b, marketable),
{
}

/// What an order is on the yes book. On the yes side a buy bids and a sell asks, at its own
/// price; on the no side a buy asks and a sell bids, at one less its price.
pub proof fn law_orders_on_the_yes_book(i: OrderIntent, t: Seq<char>)
    ensures
        i.instrument@ == t + ".YES"@ ==> {
            &&& !on_no(i)
            &&& bids(i) <==> i.side == Side::Buy
            &&& yes_px(i) == i.price
        },
        i.instrument@ == t + ".NO"@ ==> {
            &&& on_no(i)
            &&& bids(i) <==> i.side == Side::Sell
            &&& yes_px(i) == 1_000_000 - i.price
        },
        i.side == Side::Buy || i.side == Side::Sell,
{
    reveal_strlit(".YES");
    reveal_strlit(".NO");
    let n = t.len() as int;
    if i.instrument@ == t + ".YES"@ {
        let s = i.instrument@;
        assert(s[s.len() - 1] == 'S');
        if text::has_suffix(s, ".NO"@) {
            assert(s.skip(s.len() - 3)[2] == 'S');
            assert(".NO"@[2] == 'O');
        }
    }
    if i.instrument@ == t + ".NO"@ {
        assert(i.instrument@.skip(n) =~= ".NO"@);
    }
}

/// The price of an order in cents is within a cent of its price on the yes book, and is that
/// price where it is whole cents; the contracts are the whole units of the size.
pub proof fn law_orders_are_in_cents_and_contracts(i: OrderIntent, marketable: bool)
    requires
        10_000 <= yes_px(i) <= 990_000,
    ensures
        -10_000 < order_cents(i, marketable) * 10_000 - yes_px(i) < 10_000,
        yes_px(i) % 10_000 == 0 ==> order_cents(i, marketable) * 10_000 == yes_px(i),
        1 <= order_cents(i, marketable) <= 99,
        i.size >= 0 ==> contracts(i.size) * 1_000_000 <= i.size < (contracts(i.size) + 1)
            * 1_000_000,
        i.size < 0 ==> contracts(i.size) == 0,
{
}

/// An immediate order is sent exactly where it is one, comes to a contract at least, costs no
/// more than the cap and names a market; a resting one where it comes to a contract and names
/// a market.
pub proof fn law_what_is_not_sent(i: OrderIntent, cap: i64)
    ensures
        ioc_reject(i, cap) is None <==> i.kind == IntentKind::TakeNow && contracts(i.size) >= 1
            && order_cents(i, true) * contracts(i.size) * 10_000 <= cap
            && venue_spec::market_id_text(i.instrument@) is Some,
        i.kind != IntentKind::TakeNow <==> ioc_reject(i, cap) == Some(OrderReject::Kind),
        ioc_reject(i, cap) == Some(OrderReject::TooSmall) ==> i.size < 1_000_000,
        ioc_reject(i, cap) == Some(OrderReject::TooLarge) ==> order_cents(i, true) * contracts(
            i.size,
        ) * 10_000 > cap,
        rest_reject(i) is None <==> contracts(i.size) >= 1 && venue_spec::market_id_text(
            i.instrument@,
        ) is Some,
        rest_reject(i) == Some(OrderReject::TooSmall) <==> i.size < 1_000_000,
{
}

/// What an order request says: the market, the side of the yes book, the contracts and the
/// price; an immediate one is canceled where it is not filled, a resting one stays and never
/// crosses.
pub proof fn law_what_a_request_says(i: OrderIntent, marketable: bool)
    ensures
        ({
            let f = order_fields(i, marketable);
            &&& f[0] == ("ticker"@, JsonV::Str(venue_spec::market_id_text(i.instrument@)->0))
            &&& f[1] == ("client_order_id"@, JsonV::Str(i.client_id@))
            &&& bids(i) ==> f[2] == ("side"@, JsonV::Str("bid"@))
            &&& !bids(i) ==> f[2] == ("side"@, JsonV::Str("ask"@))
            &&& f[3] == ("count"@, JsonV::Str(numeral::dec(contracts(i.size) as nat) + ".00"@))
            &&& f[4] == ("price"@, JsonV::Str("0."@ + numeral::padded(
                order_cents(i, marketable) as nat,
                2,
            )))
            &&& ioc_body(i) matches JsonV::Obj(b) && b[5] == (
                "time_in_force"@,
                JsonV::Str("immediate_or_cancel"@),
            ) && b.take(5) == order_fields(i, true)
            &&& rest_body(i) matches JsonV::Obj(b) && b[5] == (
                "time_in_force"@,
                JsonV::Str("good_till_canceled"@),
            ) && b[6] == ("post_only"@, JsonV::Bool(true)) && b.take(5) == order_fields(i, false)
        }),
{
    assert((order_fields(i, true) + seq![
        ("time_in_force"@, JsonV::Str("immediate_or_cancel"@)),
        ("self_trade_prevention_type"@, JsonV::Str("taker_at_cross"@)),
    ]).take(5) =~= order_fields(i, true));
    assert((order_fields(i, false) + seq![
        ("time_in_force"@, JsonV::Str("good_till_canceled"@)),
        ("post_only"@, JsonV::Bool(true)),
        ("self_trade_prevention_type"@, JsonV::Str("maker"@)),
    ]).take(5) =~= order_fields(i, false));
}

/// A fill is what the answer counts, on the order's side; its price is the average of the yes
/// book, and for the no side one less that.
pub proof fn law_answers_are_read_for_their_side(i: OrderIntent, v: JsonV, now_ns: i64, t: Seq<char>)
    requires
        optional_text(v, 1, "fill_count"@) is Some,
        optional_text(v, 2, "average_fill_price"@) is Some,
    ensures
        ({
            let qty = number_or(optional_text(v, 1, "fill_count"@)->0, 0);
            let avg = number_or(
                optional_text(v, 2, "average_fill_price"@)->0,
                (order_cents(i, true) * 10_000) as i64,
            );
            let f = answered_fill(i, v, now_ns);
            &&& f is Some <==> qty > 0
            &&& f matches Some(x) ==> {
                &&& x.qty == qty && x.side == i.side && x.instrument == i.instrument@
                &&& x.client_id == i.client_id@ && x.ts_ns == now_ns && x.status
                    == FillStatus::Confirmed
                &&& i.instrument@ == t + ".YES"@ ==> x.px == avg
                &&& i.instrument@ == t + ".NO"@ && avg >= 0 ==> x.px == 1_000_000 - avg
                &&& x.fee == venue::fee_of(i.params.fee_rate, x.px, x.qty)
            }
        }),
{
    law_orders_on_the_yes_book(i, t);
}

/// The parts of an answer are found by their names in an object and by their places in a
/// list: the order id, the count, the price and the fee, and no more. The id is a text; the
/// others may be missing, but are not of another kind.
pub proof fn law_answers_by_name_or_place(v: JsonV, t: Seq<char>)
    ensures
        v is Arr && readable(v) ==> (v.elem(0) matches Some(JsonV::Str(_))) && v.elem(4) is None && (
        v.elem(1) is Some ==> v.elem(1)->0 is Str) && (v.elem(2) is Some ==> v.elem(2)->0 is Str)
            && (v.elem(3) is Some ==> v.elem(3)->0 is Str),
        v is Obj && readable(v) ==> (v.field("order_id"@) matches Some(JsonV::Str(_))) && (v.field(
            "fill_count"@,
        ) is Some ==> v.field("fill_count"@)->0 is Str) && (v.field("average_fill_price"@) is Some
            ==> v.field("average_fill_price"@)->0 is Str),
        v is Arr && v.elem(1) == Some(JsonV::Str(t)) ==> optional_text(v, 1, "fill_count"@) == Some(
            t,
        ),
        v is Arr && v.elem(2) == Some(JsonV::Str(t)) ==> optional_text(v, 2, "average_fill_price"@)
            == Some(t),
        v is Obj && v.field("fill_count"@) == Some(JsonV::Str(t)) ==> optional_text(
            v,
            1,
            "fill_count"@,
        ) == Some(t),
        v.field("order"@) is None ==> order_in(v) == v,
        v.field("order"@) matches Some(o) ==> order_in(v) == o,
{
}

} // verus!

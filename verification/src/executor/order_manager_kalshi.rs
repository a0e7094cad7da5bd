//! Reading the venue's order, fill and position objects, both as the private feed sends
//! them and as the polls return them, and routing them to the order state.
use vstd::prelude::*;
use crate::datetime;
use crate::datetime::iso_ms;
use crate::executor::order_manager;
use crate::executor::order_manager::{BookSide, FillRec, OmsEvent, OmsState, OrderMsg};
use crate::fixed;
use crate::fixed::sat;
use crate::json;
use crate::json::{str_field, Json};
use crate::json::JsonV;
use crate::numeral;
use crate::numeral::{i64_text, parse_micros};
use crate::text;
use crate::text::{joined, same, trim};

verus! {

/// The first of two values that is there.
pub open spec fn either<T>(a: Option<T>, b: Option<T>) -> Option<T> {
    match a {
        Some(x) => Some(x),
        None => b,
    }
}

/// A value, or a default.
pub open spec fn or_else<T>(a: Option<T>, d: T) -> T {
    match a {
        Some(x) => x,
        None => d,
    }
}

/// A number in micro-units: a string that spells one, white space around it aside, or a
/// JSON number.
pub open spec fn num_of(v: Option<JsonV>) -> Option<i64> {
    match v {
        Some(JsonV::Str(s)) => json::fit64(numeral::micros(text::trimmed(s))),
        Some(JsonV::Num(t)) => json::fit64(numeral::micros(t)),
        _ => None,
    }
}

/// The number in a field.
pub open spec fn num_at(v: JsonV, k: Seq<char>) -> Option<i64> {
    num_of(v.field(k))
}

/// The text in a field.
pub open spec fn str_at(v: JsonV, k: Seq<char>) -> Option<Seq<char>> {
    json::text_at(v.field(k))
}

/// The number in a field.
fn num(v: &Json, k: &str) -> (r: Option<i64>)
    ensures
        r == num_at(v@, k@),
{
    match v.get(k) {
        Some(Json::Str(s)) => {
            let t = trim(s.as_str());
            parse_micros(t.as_str())
        },
        Some(Json::Num(t)) => parse_micros(t.as_str()),
        _ => None,
    }
}

/// The first number in two fields.
fn num2(v: &Json, a: &str, b: &str) -> (r: Option<i64>)
    ensures
        r == either(num_at(v@, a@), num_at(v@, b@)),
{
    match num(v, a) {
        Some(x) => Some(x),
        None => num(v, b),
    }
}

/// The first text in two fields.
fn str2<'a>(v: &'a Json, a: &str, b: &str) -> (r: Option<&'a str>)
    ensures
        json::chars(r) == either(str_at(v@, a@), str_at(v@, b@)),
{
    match str_field(v, a) {
        Some(x) => Some(x),
        None => str_field(v, b),
    }
}

/// The yes price: from dollars, else from cents (anything above one), else from the no
/// price.
pub open spec fn yes_price_of(v: JsonV) -> i64 {
    match num_at(v, "yes_price_dollars"@) {
        Some(p) => p,
        None => match num_at(v, "yes_price"@) {
            Some(c) => if c > 1_000_000 {
                (c / 100) as i64
            } else {
                c
            },
            None => match num_at(v, "no_price_dollars"@) {
                Some(p) => fixed::clamp64(1_000_000 - p) as i64,
                None => 0,
            },
        },
    }
}

/// The yes price of an order or a fill.
fn yes_price(v: &Json) -> (r: i64)
    ensures
        r == yes_price_of(v@),
{
    if let Some(p) = num(v, "yes_price_dollars") {
        return p;
    }
    if let Some(c) = num(v, "yes_price") {
        return if c > 1_000_000 {
            c / 100
        } else {
            c
        };
    }
    if let Some(p) = num(v, "no_price_dollars") {
        return sat(1_000_000 - p as i128);
    }
    0
}

/// The instant of an object, in milliseconds: from its millisecond field, else from its
/// second field, else from its text field, else 0.
pub open spec fn instant(ms: Option<i64>, secs: Option<i64>, iso: Option<Seq<char>>) -> i64 {
    match ms {
        Some(x) => fixed::toward_zero(x as int, 1_000_000) as i64,
        None => match secs {
            Some(x) => fixed::toward_zero(x as int, 1_000) as i64,
            None => match iso {
                Some(t) => or_else(datetime::millis_of(datetime::rfc3339(t)), 0),
                None => 0,
            },
        },
    }
}

/// The first of two texts that is an instant.
pub open spec fn first_instant(a: Option<Seq<char>>, b: Option<Seq<char>>) -> Option<Seq<char>> {
    if a is Some && datetime::rfc3339(a->0) is Some {
        a
    } else {
        b
    }
}

fn instant_ms(ms: Option<i64>, secs: Option<i64>, iso: Option<&str>) -> (r: i64)
    ensures
        r == instant(ms, secs, json::chars(iso)),
{
    if let Some(x) = ms {
        return fixed::div_toward_zero(x, 1_000_000);
    }
    if let Some(x) = secs {
        return fixed::div_toward_zero(x, 1_000);
    }
    match iso {
        Some(t) => match iso_ms(t) {
            Some(x) => x,
            None => 0,
        },
        None => 0,
    }
}

/// A report of an order, as the contracts see it.
pub struct OrderMsgV {
    pub order_id: Seq<char>,
    pub client_id: Seq<char>,
    pub ticker: Seq<char>,
    pub side: BookSide,
    pub yes_price: i64,
    pub initial: i64,
    pub filled: i64,
    pub remaining: i64,
    pub status: Seq<char>,
    pub updated_ms: i64,
}

impl View for OrderMsg {
    type V = OrderMsgV;

    open spec fn view(&self) -> OrderMsgV {
        OrderMsgV {
            order_id: self.order_id@,
            client_id: self.client_id@,
            ticker: self.ticker@,
            side: self.side,
            yes_price: self.yes_price,
            initial: self.initial,
            filled: self.filled,
            remaining: self.remaining,
            status: self.status@,
            updated_ms: self.updated_ms,
        }
    }
}

/// A fill, as the contracts see it.
pub struct FillV {
    pub fill_id: Seq<char>,
    pub order_id: Seq<char>,
    pub ticker: Seq<char>,
    pub side: BookSide,
    pub count: i64,
    pub yes_price: i64,
    pub is_taker: bool,
    pub fee: i64,
    pub ts_ms: i64,
}

impl View for FillRec {
    type V = FillV;

    open spec fn view(&self) -> FillV {
        FillV {
            fill_id: self.fill_id@,
            order_id: self.order_id@,
            ticker: self.ticker@,
            side: self.side,
            count: self.count,
            yes_price: self.yes_price,
            is_taker: self.is_taker,
            fee: self.fee,
            ts_ms: self.ts_ms,
        }
    }
}

/// The report that an order object makes: it needs an order id and a side.
#[verifier::opaque]
pub open spec fn order_of(v: JsonV) -> Option<OrderMsgV> {
    let id = str_at(v, "order_id"@);
    let side = BookSide::named(
        str_at(v, "book_side"@),
        either(str_at(v, "outcome_side"@), str_at(v, "side"@)),
        str_at(v, "action"@),
    );
    if id is None || side is None {
        None
    } else {
        let initial = or_else(
            either(
                either(num_at(v, "initial_count_fp"@), num_at(v, "initial_count"@)),
                either(num_at(v, "count_fp"@), num_at(v, "count"@)),
            ),
            0,
        );
        let filled = or_else(either(num_at(v, "fill_count_fp"@), num_at(v, "fill_count"@)), 0);
        Some(
            OrderMsgV {
                order_id: id->0,
                client_id: or_else(str_at(v, "client_order_id"@), Seq::empty()),
                ticker: or_else(
                    either(str_at(v, "ticker"@), str_at(v, "market_ticker"@)),
                    Seq::empty(),
                ),
                side: side->0,
                yes_price: yes_price_of(v),
                initial,
                filled,
                remaining: or_else(
                    either(num_at(v, "remaining_count_fp"@), num_at(v, "remaining_count"@)),
                    if initial > 0 {
                        fixed::clamp64(initial - filled) as i64
                    } else {
                        -1_000_000i64
                    },
                ),
                status: or_else(str_at(v, "status"@), Seq::empty()),
                updated_ms: instant(
                    either(num_at(v, "last_updated_ts_ms"@), num_at(v, "created_ts_ms"@)),
                    num_at(v, "ts"@),
                    first_instant(str_at(v, "last_update_time"@), str_at(v, "created_time"@)),
                ),
            },
        )
    }
}

/// The fill that a fill object makes: it needs a fill id and a side.
#[verifier::opaque]
pub open spec fn fill_of(v: JsonV) -> Option<FillV> {
    let id = either(str_at(v, "fill_id"@), str_at(v, "trade_id"@));
    let side = BookSide::named(
        str_at(v, "book_side"@),
        either(
            either(str_at(v, "outcome_side"@), str_at(v, "purchased_side"@)),
            str_at(v, "side"@),
        ),
        str_at(v, "action"@),
    );
    if id is None || side is None {
        None
    } else {
        Some(
            FillV {
                fill_id: id->0,
                order_id: or_else(str_at(v, "order_id"@), Seq::empty()),
                ticker: or_else(
                    either(str_at(v, "market_ticker"@), str_at(v, "ticker"@)),
                    Seq::empty(),
                ),
                side: side->0,
                count: or_else(either(num_at(v, "count_fp"@), num_at(v, "count"@)), 0),
                yes_price: yes_price_of(v),
                is_taker: v.field("is_taker"@) == Some(JsonV::Bool(true)),
                fee: or_else(num_at(v, "fee_cost"@), 0),
                ts_ms: instant(num_at(v, "ts_ms"@), num_at(v, "ts"@), str_at(v, "created_time"@)),
            },
        )
    }
}

/// The market and the signed position of a position object.
pub open spec fn position_of(v: JsonV) -> Option<(Seq<char>, i64)> {
    let t = either(str_at(v, "market_ticker"@), str_at(v, "ticker"@));
    let p = either(num_at(v, "position_fp"@), num_at(v, "position"@));
    if t is Some && p is Some {
        Some((t->0, p->0))
    } else {
        None
    }
}

fn text_or_empty(s: Option<&str>) -> (r: String)
    ensures
        r@ == or_else(json::chars(s), Seq::empty()),
{
    match s {
        Some(t) => t.to_string(),
        None => String::new(),
    }
}

/// Reads an order object.
pub fn parse_order(v: &Json) -> (r: Option<OrderMsg>)
    ensures
        match r {
            Some(m) => order_of(v@) == Some(m@),
            None => order_of(v@) is None,
        },
{
    proof {
        reveal(order_of);
    }
    let id = match str_field(v, "order_id") {
        Some(x) => x,
        None => {
            return None;
        },
    };
    let side = match BookSide::parse(
        str_field(v, "book_side"),
        str2(v, "outcome_side", "side"),
        str_field(v, "action"),
    ) {
        Some(x) => x,
        None => {
            return None;
        },
    };
    let initial: i64 = match num2(v, "initial_count_fp", "initial_count") {
        Some(x) => x,
        None => match num2(v, "count_fp", "count") {
            Some(x) => x,
            None => 0,
        },
    };
    let filled: i64 = match num2(v, "fill_count_fp", "fill_count") {
        Some(x) => x,
        None => 0,
    };
    let remaining: i64 = match num2(v, "remaining_count_fp", "remaining_count") {
        Some(x) => x,
        None => if initial > 0 {
            sat(initial as i128 - filled as i128)
        } else {
            -1_000_000
        },
    };
    let iso = match str_field(v, "last_update_time") {
        Some(t) => if iso_ms(t).is_some() {
            Some(t)
        } else {
            str_field(v, "created_time")
        },
        None => str_field(v, "created_time"),
    };
    let m = OrderMsg {
        order_id: id.to_string(),
        client_id: text_or_empty(str_field(v, "client_order_id")),
        ticker: text_or_empty(str2(v, "ticker", "market_ticker")),
        side,
        yes_price: yes_price(v),
        initial,
        filled,
        remaining,
        status: text_or_empty(str_field(v, "status")),
        updated_ms: instant_ms(
            num2(v, "last_updated_ts_ms", "created_ts_ms"),
            num(v, "ts"),
            iso,
        ),
    };
    Some(m)
}

/// Reads a fill object.
pub fn parse_fill(v: &Json) -> (r: Option<FillRec>)
    ensures
        match r {
            Some(f) => fill_of(v@) == Some(f@),
            None => fill_of(v@) is None,
        },
{
    proof {
        reveal(fill_of);
    }
    let id = match str2(v, "fill_id", "trade_id") {
        Some(x) => x,
        None => {
            return None;
        },
    };
    let outcome = match str2(v, "outcome_side", "purchased_side") {
        Some(x) => Some(x),
        None => str_field(v, "side"),
    };
    let side = match BookSide::parse(str_field(v, "book_side"), outcome, str_field(v, "action")) {
        Some(x) => x,
        None => {
            return None;
        },
    };
    let count: i64 = match num2(v, "count_fp", "count") {
        Some(x) => x,
        None => 0,
    };
    let fee: i64 = match num(v, "fee_cost") {
        Some(x) => x,
        None => 0,
    };
    let is_taker: bool = match v.get("is_taker") {
        Some(x) => match x.as_bool() {
            Some(b) => b,
            None => false,
        },
        None => false,
    };
    Some(
        FillRec {
            fill_id: id.to_string(),
            order_id: text_or_empty(str_field(v, "order_id")),
            ticker: text_or_empty(str2(v, "market_ticker", "ticker")),
            side,
            count,
            yes_price: yes_price(v),
            is_taker,
            fee,
            ts_ms: instant_ms(num(v, "ts_ms"), num(v, "ts"), str_field(v, "created_time")),
        },
    )
}

/// Reads a position object.
pub fn parse_position(v: &Json) -> (r: Option<(String, i64)>)
    ensures
        match r {
            Some((t, p)) => position_of(v@) == Some((t@, p)),
            None => position_of(v@) is None,
        },
{
    match str2(v, "market_ticker", "ticker") {
        Some(t) => match num2(v, "position_fp", "position") {
            Some(p) => Some((t.to_string(), p)),
            None => None,
        },
        None => None,
    }
}

/// The message of an envelope, or the envelope itself.
pub open spec fn body_of(v: JsonV) -> JsonV {
    or_else(v.field("msg"@), v)
}

/// The state after a message of the feed came in.
pub open spec fn touched(v: order_manager::OmsV, now_ms: i64) -> order_manager::OmsV {
    order_manager::OmsV { last_ws_ms: now_ms, ..v }
}

/// Takes one envelope of the private feed: an order report, a fill or a position go to the
/// state; anything else but an error only shows that the feed is alive. A message that
/// cannot be read changes nothing.
pub fn route(st: &mut OmsState, v: &Json, now_ms: i64) -> (ev: Vec<OmsEvent>)
    requires
        old(st).wf(),
    ensures
        final(st).wf(),
        ({
            let kind = or_else(str_at(v@, "type"@), Seq::empty());
            let body = body_of(v@);
            let pre = touched(old(st)@, now_ms);
            if kind == "user_order"@ {
                match order_of(body) {
                    Some(m) => exists|x: OrderMsg|
                        #![trigger x@]
                        x@ == m && final(st)@ == order_manager::observed(pre, x, false)
                            && order_manager::event_views(ev@) == order_manager::observed_events(
                            pre,
                            x,
                            false,
                        ),
                    None => final(st)@ == old(st)@ && ev@.len() == 0,
                }
            } else if kind == "fill"@ {
                match fill_of(body) {
                    Some(f) => exists|x: FillRec|
                        #![trigger x@]
                        x@ == f && final(st)@ == order_manager::after_fill(pre, x)
                            && order_manager::event_views(ev@) == order_manager::fill_events(pre, x),
                    None => final(st)@ == old(st)@ && ev@.len() == 0,
                }
            } else if kind == "market_position"@ {
                match position_of(body) {
                    Some((t, p)) => final(st)@ == order_manager::positioned(pre, t, p, now_ms)
                        && order_manager::event_views(ev@) == order_manager::position_events(
                        pre,
                        t,
                        p,
                        now_ms,
                    ),
                    None => final(st)@ == old(st)@ && ev@.len() == 0,
                }
            } else if kind == "error"@ {
                final(st)@ == old(st)@ && ev@.len() == 0
            } else {
                final(st)@ == pre && ev@.len() == 0
            }
        }),
{
    let kind = text_or_empty(str_field(v, "type"));
    let body = match v.get("msg") {
        Some(m) => m,
        None => v,
    };
    if same(kind.as_str(), "user_order") {
        match parse_order(body) {
            Some(m) => {
                st.touch_ws(now_ms);
                st.on_order_msg(&m, false)
            },
            None => Vec::new(),
        }
    } else if same(kind.as_str(), "fill") {
        match parse_fill(body) {
            Some(f) => {
                st.touch_ws(now_ms);
                st.on_fill(&f)
            },
            None => Vec::new(),
        }
    } else if same(kind.as_str(), "market_position") {
        match parse_position(body) {
            Some((t, p)) => {
                st.touch_ws(now_ms);
                st.on_position(t.as_str(), p, now_ms)
            },
            None => Vec::new(),
        }
    } else if same(kind.as_str(), "error") {
        Vec::new()
    } else {
        st.touch_ws(now_ms);
        Vec::new()
    }
}

/// The orders of a page of a poll, in their order; what cannot be read is left out.
pub open spec fn orders_in(items: Seq<JsonV>) -> Seq<OrderMsgV>
    decreases items.len(),
{
    if items.len() == 0 {
        Seq::empty()
    } else {
        match order_of(items.last()) {
            Some(m) => orders_in(items.drop_last()).push(m),
            None => orders_in(items.drop_last()),
        }
    }
}

/// The views of a run of reports.
pub open spec fn msg_views(s: Seq<OrderMsg>) -> Seq<OrderMsgV> {
    Seq::new(s.len(), |i: int| s[i]@)
}

/// Reads a page of a poll of the resting orders: its rows, and the cursor of the next page
/// (empty where it is the last).
pub fn parse_orders_page(v: &Json) -> (r: (Vec<OrderMsg>, String))
    ensures
        msg_views(r.0@) == match v@.field("orders"@) {
            Some(JsonV::Arr(a)) => orders_in(a),
            _ => Seq::empty(),
        },
        r.1@ == or_else(str_at(v@, "cursor"@), Seq::empty()),
{
    let mut rows: Vec<OrderMsg> = Vec::new();
    assert(msg_views(rows@) =~= Seq::<OrderMsgV>::empty());
    if let Some(o) = v.get("orders") {
        if let Some(a) = o.as_array() {
            let ghost items = o@.items()->0;
            let mut i: usize = 0;
            assert(items.take(0) =~= Seq::<JsonV>::empty());
            while i < a.len()
                invariant
                    items == o@.items()->0,
                    items.len() == a@.len(),
                    forall|j: int| 0 <= j < a@.len() ==> #[trigger] items[j] == a@[j]@,
                    i <= a@.len(),
                    msg_views(rows@) == orders_in(items.take(i as int)),
                decreases a@.len() - i,
            {
                let ghost before = rows@;
                assert(items.take(i + 1).drop_last() =~= items.take(i as int));
                assert(items.take(i + 1).last() == items[i as int]);
                if let Some(m) = parse_order(&a[i]) {
                    rows.push(m);
                    assert(msg_views(rows@) =~= msg_views(before).push(m@));
                }
                i = i + 1;
            }
            assert(items.take(items.len() as int) =~= items);
        }
    }
    (rows, text_or_empty(str_field(v, "cursor")))
}

/// The positions of a poll, in their order; what cannot be read is left out.
pub open spec fn positions_in(items: Seq<JsonV>) -> Seq<(Seq<char>, i64)>
    decreases items.len(),
{
    if items.len() == 0 {
        Seq::empty()
    } else {
        match position_of(items.last()) {
            Some(p) => positions_in(items.drop_last()).push(p),
            None => positions_in(items.drop_last()),
        }
    }
}

/// The views of a run of positions.
pub open spec fn row_views(s: Seq<(String, i64)>) -> Seq<(Seq<char>, i64)> {
    Seq::new(s.len(), |i: int| (s[i].0@, s[i].1))
}

/// Reads a poll of the positions.
pub fn parse_positions(v: &Json) -> (rows: Vec<(String, i64)>)
    ensures
        row_views(rows@) == match v@.field("market_positions"@) {
            Some(JsonV::Arr(a)) => positions_in(a),
            _ => Seq::empty(),
        },
{
    let mut rows: Vec<(String, i64)> = Vec::new();
    assert(row_views(rows@) =~= Seq::<(Seq<char>, i64)>::empty());
    if let Some(o) = v.get("market_positions") {
        if let Some(a) = o.as_array() {
            let ghost items = o@.items()->0;
            let mut i: usize = 0;
            assert(items.take(0) =~= Seq::<JsonV>::empty());
            while i < a.len()
                invariant
                    items == o@.items()->0,
                    items.len() == a@.len(),
                    forall|j: int| 0 <= j < a@.len() ==> #[trigger] items[j] == a@[j]@,
                    i <= a@.len(),
                    row_views(rows@) == positions_in(items.take(i as int)),
                decreases a@.len() - i,
            {
                let ghost before = rows@;
                assert(items.take(i + 1).drop_last() =~= items.take(i as int));
                assert(items.take(i + 1).last() == items[i as int]);
                if let Some(p) = parse_position(&a[i]) {
                    rows.push(p);
                    assert(row_views(rows@) =~= row_views(before).push((p.0@, p.1)));
                }
                i = i + 1;
            }
            assert(items.take(items.len() as int) =~= items);
        }
    }
    rows
}

/// The fills of a poll, in their order; what cannot be read is left out.
pub open spec fn fills_in(items: Seq<JsonV>) -> Seq<FillV>
    decreases items.len(),
{
    if items.len() == 0 {
        Seq::empty()
    } else {
        match fill_of(items.last()) {
            Some(f) => fills_in(items.drop_last()).push(f),
            None => fills_in(items.drop_last()),
        }
    }
}

/// The views of a run of fills.
pub open spec fn fill_views(s: Seq<FillRec>) -> Seq<FillV> {
    Seq::new(s.len(), |i: int| s[i]@)
}

/// Reads a poll of the fills.
pub fn parse_fills(v: &Json) -> (rows: Vec<FillRec>)
    ensures
        fill_views(rows@) == match v@.field("fills"@) {
            Some(JsonV::Arr(a)) => fills_in(a),
            _ => Seq::empty(),
        },
{
    let mut rows: Vec<FillRec> = Vec::new();
    assert(fill_views(rows@) =~= Seq::<FillV>::empty());
    if let Some(o) = v.get("fills") {
        if let Some(a) = o.as_array() {
            let ghost items = o@.items()->0;
            let mut i: usize = 0;
            assert(items.take(0) =~= Seq::<JsonV>::empty());
            while i < a.len()
                invariant
                    items == o@.items()->0,
                    items.len() == a@.len(),
                    forall|j: int| 0 <= j < a@.len() ==> #[trigger] items[j] == a@[j]@,
                    i <= a@.len(),
                    fill_views(rows@) == fills_in(items.take(i as int)),
                decreases a@.len() - i,
            {
                let ghost before = rows@;
                assert(items.take(i + 1).drop_last() =~= items.take(i as int));
                assert(items.take(i + 1).last() == items[i as int]);
                if let Some(f) = parse_fill(&a[i]) {
                    rows.push(f);
                    assert(fill_views(rows@) =~= fill_views(before).push(f@));
                }
                i = i + 1;
            }
            assert(items.take(items.len() as int) =~= items);
        }
    }
    rows
}

/// From which second on fills are asked for: ten seconds before the latest one known, or
/// an hour back where none is.
pub fn fills_since(last_fill_ms: i64, now_ms: i64) -> (r: i64)
    ensures
        r == if last_fill_ms > 0 {
            fixed::toward_zero(last_fill_ms as int, 1000) - 10
        } else {
            fixed::toward_zero(now_ms as int, 1000) - 3600
        },
{
    if last_fill_ms > 0 {
        fixed::div_toward_zero(last_fill_ms, 1000) - 10
    } else {
        fixed::div_toward_zero(now_ms, 1000) - 3600
    }
}

/// What a pass of the poll loop does besides the orders and positions: whether to ask for
/// fills, and whether to forget dead orders.
pub fn sync_due(now_ms: i64, last_fills: i64, last_gc: i64, fills_sync_ms: u64) -> (r: (bool, bool))
    ensures
        r.0 == (now_ms - last_fills >= fills_sync_ms),
        r.1 == (now_ms - last_gc >= 60_000),
{
    (
        now_ms as i128 - last_fills as i128 >= fills_sync_ms as i128,
        now_ms as i128 - last_gc as i128 >= 60_000,
    )
}

/// What a listing that comes in pages does next.
#[derive(Clone, Copy, Debug, PartialEq, Eq, Structural)]
pub enum PageStep {
    /// Ask for the page that the cursor leads to.
    Next,
    /// Take what has come: it is the listing.
    Done,
    /// Take nothing: a page is missing.
    Incomplete,
}

/// What a listing does once `pages` of its pages were asked for and the last one failed or
/// came with this cursor: a failed page makes it incomplete, and it ends where no cursor leads
/// on, or after twenty pages.
pub fn page_step(pages: u32, cursor: &str, failed: bool) -> (r: PageStep)
    ensures
        r == if failed {
            PageStep::Incomplete
        } else if cursor@.len() == 0 || pages >= 20 {
            PageStep::Done
        } else {
            PageStep::Next
        },
{
    if failed {
        PageStep::Incomplete
    } else if cursor.is_empty() || pages >= 20 {
        PageStep::Done
    } else {
        PageStep::Next
    }
}

/// The pause before the next attempt to connect: doubled, up to a minute.
pub fn next_backoff(secs: u64) -> (r: u64)
    ensures
        r == if secs >= 30 {
            60
        } else {
            2 * secs
        },
{
    if secs >= 30 {
        60
    } else {
        secs * 2
    }
}

/// The state after a run of fills.
pub open spec fn fills_applied(v: order_manager::OmsV, fills: Seq<FillRec>) -> order_manager::OmsV
    decreases fills.len(),
{
    if fills.len() == 0 {
        v
    } else {
        order_manager::after_fill(fills_applied(v, fills.drop_last()), fills.last())
    }
}

/// What a run of fills leads to.
pub open spec fn fills_events(v: order_manager::OmsV, fills: Seq<FillRec>) -> Seq<
    order_manager::EventV,
>
    decreases fills.len(),
{
    if fills.len() == 0 {
        Seq::empty()
    } else {
        fills_events(v, fills.drop_last()) + order_manager::fill_events(
            fills_applied(v, fills.drop_last()),
            fills.last(),
        )
    }
}

/// Takes the fills of a poll, in their order.
pub fn apply_fills(st: &mut OmsState, fills: &Vec<FillRec>) -> (ev: Vec<OmsEvent>)
    requires
        old(st).wf(),
    ensures
        final(st).wf(),
        final(st)@ == fills_applied(old(st)@, fills@),
        order_manager::event_views(ev@) == fills_events(old(st)@, fills@),
{
    let ghost v0 = st@;
    let mut ev: Vec<OmsEvent> = Vec::new();
    let mut i: usize = 0;
    assert(fills@.take(0) =~= Seq::<FillRec>::empty());
    assert(order_manager::event_views(ev@) =~= Seq::<order_manager::EventV>::empty());
    while i < fills.len()
        invariant
            st.wf(),
            i <= fills@.len(),
            st@ == fills_applied(v0, fills@.take(i as int)),
            order_manager::event_views(ev@) == fills_events(v0, fills@.take(i as int)),
        decreases fills@.len() - i,
    {
        assert(fills@.take(i + 1).drop_last() =~= fills@.take(i as int));
        assert(fills@.take(i + 1).last() == fills@[i as int]);
        let mut more = st.on_fill(&fills[i]);
        let ghost a = ev@;
        let ghost b = more@;
        ev.append(&mut more);
        assert(order_manager::event_views(ev@) =~= order_manager::event_views(a)
            + order_manager::event_views(b));
        i = i + 1;
    }
    assert(fills@.take(fills@.len() as int) =~= fills@);
    ev
}

/// Takes the answer to a question about one order; an answer that cannot be read changes
/// nothing.
pub fn apply_resolved(st: &mut OmsState, v: &Json) -> (ev: Vec<OmsEvent>)
    requires
        old(st).wf(),
    ensures
        final(st).wf(),
        match order_of(or_else(v@.field("order"@), v@)) {
            Some(m) => exists|x: OrderMsg|
                #![trigger x@]
                x@ == m && final(st)@ == order_manager::observed(old(st)@, x, false)
                    && order_manager::event_views(ev@) == order_manager::observed_events(
                    old(st)@,
                    x,
                    false,
                ),
            None => final(st)@ == old(st)@ && ev@.len() == 0,
        },
{
    let obj = match v.get("order") {
        Some(o) => o,
        None => v,
    };
    match parse_order(obj) {
        Some(m) => st.on_order_msg(&m, false),
        None => Vec::new(),
    }
}

/// The query for a page of resting orders; an empty cursor asks for the first.
pub fn orders_query(cursor: &str) -> (r: String)
    ensures
        r@ == if cursor@.len() == 0 {
            "?status=resting&limit=200"@
        } else {
            "?status=resting&limit=200&cursor="@ + cursor@
        },
{
    if cursor.unicode_len() == 0 {
        "?status=resting&limit=200".to_string()
    } else {
        joined("?status=resting&limit=200&cursor=", cursor)
    }
}

/// The query for fills from a second on.
pub fn fills_query(since_s: i64) -> (r: String)
    ensures
        r@ == "?min_ts="@ + numeral::int_text(since_s as int) + "&limit=200"@,
{
    let a = joined("?min_ts=", i64_text(since_s).as_str());
    joined(a.as_str(), "&limit=200")
}

/// The private channels.
pub open spec fn feed_channels() -> JsonV {
    JsonV::Arr(
        seq![
            JsonV::Str("user_orders"@),
            JsonV::Str("fill"@),
            JsonV::Str("market_positions"@),
        ],
    )
}

/// The request that subscribes to the private channels.
pub fn feed_request() -> (r: Json)
    ensures
        r@ == JsonV::Obj(
            seq![
                ("id"@, JsonV::Num("1"@)),
                ("cmd"@, JsonV::Str("subscribe"@)),
                ("params"@, JsonV::Obj(seq![("channels"@, feed_channels())])),
            ],
        ),
{
    let mut ch: Vec<Json> = Vec::new();
    ch.push(json::string("user_orders"));
    ch.push(json::string("fill"));
    ch.push(json::string("market_positions"));
    let ghost chs = ch@;
    let channels = json::array(ch);
    assert(json::value_views(chs) =~= feed_channels()->Arr_0);
    let mut p: Vec<(String, Json)> = Vec::new();
    p.push(json::pair("channels", channels));
    assert(json::field_views(p@) =~= seq![("channels"@, feed_channels())]);
    let params = json::object(p);
    let mut f: Vec<(String, Json)> = Vec::new();
    f.push(json::pair("id", Json::Num("1".to_string())));
    f.push(json::text_pair("cmd", "subscribe"));
    f.push(json::pair("params", params));
    assert(json::field_views(f@) =~= seq![
        ("id"@, JsonV::Num("1"@)),
        ("cmd"@, JsonV::Str("subscribe"@)),
        ("params"@, JsonV::Obj(seq![("channels"@, feed_channels())])),
    ]);
    json::object(f)
}

/// What a yes price is read from: dollars as they are, cents by a hundredth, and the no price
/// as one less it.
pub proof fn law_yes_prices_are_read(v: JsonV)
    ensures
        num_at(v, "yes_price_dollars"@) matches Some(p) ==> yes_price_of(v) == p,
        num_at(v, "yes_price_dollars"@) is None ==> {
            &&& num_at(v, "yes_price"@) matches Some(c) ==> (c > 1_000_000 ==> yes_price_of(v) * 100
                <= c < yes_price_of(v) * 100 + 100) && (c <= 1_000_000 ==> yes_price_of(v) == c)
            &&& num_at(v, "yes_price"@) is None ==> (num_at(v, "no_price_dollars"@) matches Some(p)
                ==> (p >= 0 ==> yes_price_of(v) == 1_000_000 - p))
        },
{
}

/// An order report is read where it has an order id and a side: its counts are the report's,
/// and what is left is its size less what is filled where it does not say.
pub proof fn law_order_reports_are_read(v: JsonV)
    ensures
        order_of(v) is Some <==> str_at(v, "order_id"@) is Some && BookSide::named(
            str_at(v, "book_side"@),
            either(str_at(v, "outcome_side"@), str_at(v, "side"@)),
            str_at(v, "action"@),
        ) is Some,
        order_of(v) matches Some(m) ==> {
            &&& str_at(v, "order_id"@) == Some(m.order_id)
            &&& Some(m.side) == BookSide::named(
                str_at(v, "book_side"@),
                either(str_at(v, "outcome_side"@), str_at(v, "side"@)),
                str_at(v, "action"@),
            )
            &&& m.yes_price == yes_price_of(v)
            &&& num_at(v, "initial_count_fp"@) matches Some(x) ==> m.initial == x
            &&& num_at(v, "fill_count_fp"@) matches Some(x) ==> m.filled == x
            &&& num_at(v, "remaining_count_fp"@) matches Some(x) ==> m.remaining == x
            &&& num_at(v, "remaining_count_fp"@) is None && num_at(v, "remaining_count"@) is None
                && m.initial > 0 && m.filled >= 0 ==> m.remaining == m.initial - m.filled
            &&& str_at(v, "status"@) matches Some(s) ==> m.status == s
            &&& str_at(v, "client_order_id"@) matches Some(s) ==> m.client_id == s
            &&& str_at(v, "ticker"@) matches Some(s) ==> m.ticker == s
            &&& num_at(v, "last_updated_ts_ms"@) matches Some(x) ==> (x >= 0 ==> m.updated_ms
                * 1_000_000 <= x < (m.updated_ms + 1) * 1_000_000)
        },
{
    reveal(order_of);
}

/// A fill report is read where it has a fill id and a side: its count, its price, its fee and
/// whether it took are the report's.
pub proof fn law_fill_reports_are_read(v: JsonV)
    ensures
        fill_of(v) is Some <==> (str_at(v, "fill_id"@) is Some || str_at(v, "trade_id"@) is Some)
            && BookSide::named(
            str_at(v, "book_side"@),
            either(
                either(str_at(v, "outcome_side"@), str_at(v, "purchased_side"@)),
                str_at(v, "side"@),
            ),
            str_at(v, "action"@),
        ) is Some,
        fill_of(v) matches Some(f) ==> {
            &&& str_at(v, "fill_id"@) matches Some(s) ==> f.fill_id == s
            &&& str_at(v, "order_id"@) matches Some(s) ==> f.order_id == s
            &&& str_at(v, "market_ticker"@) matches Some(s) ==> f.ticker == s
            &&& num_at(v, "count_fp"@) matches Some(x) ==> f.count == x
            &&& num_at(v, "count_fp"@) is None ==> (num_at(v, "count"@) matches Some(x) ==> f.count
                == x)
            &&& f.yes_price == yes_price_of(v)
            &&& f.is_taker <==> v.field("is_taker"@) == Some(JsonV::Bool(true))
            &&& num_at(v, "fee_cost"@) matches Some(x) ==> f.fee == x
            &&& num_at(v, "ts_ms"@) matches Some(x) ==> (x >= 0 ==> f.ts_ms * 1_000_000 <= x < (
            f.ts_ms + 1) * 1_000_000)
        },
{
    reveal(fill_of);
}

/// A position report is read where it has a market and a position; pages keep their order and
/// leave out what cannot be read.
pub proof fn law_pages_keep_their_order(v: JsonV, items: Seq<JsonV>)
    ensures
        position_of(v) is Some <==> (str_at(v, "market_ticker"@) is Some || str_at(v, "ticker"@)
            is Some) && (num_at(v, "position_fp"@) is Some || num_at(v, "position"@) is Some),
        position_of(v) matches Some(p) ==> (num_at(v, "position_fp"@) matches Some(x) ==> p.1 == x)
            && (str_at(v, "market_ticker"@) matches Some(t) ==> p.0 == t),
        position_of(v) matches Some(p) ==> positions_in(items.push(v)) == positions_in(items).push(
            p,
        ),
        position_of(v) is None ==> positions_in(items.push(v)) == positions_in(items),
        order_of(v) matches Some(m) ==> orders_in(items.push(v)) == orders_in(items).push(m),
        order_of(v) is None ==> orders_in(items.push(v)) == orders_in(items),
        fill_of(v) matches Some(f) ==> fills_in(items.push(v)) == fills_in(items).push(f),
        fill_of(v) is None ==> fills_in(items.push(v)) == fills_in(items),
{
    assert(items.push(v).drop_last() =~= items);
}

/// A run of fills is taken in one after the other.
pub proof fn law_fills_of_a_poll_are_taken_in_turn(
    v: order_manager::OmsV,
    fills: Seq<FillRec>,
    f: FillRec,
)
    ensures
        fills_applied(v, fills.push(f)) == order_manager::after_fill(fills_applied(v, fills), f),
        fills_events(v, fills.push(f)) == fills_events(v, fills) + order_manager::fill_events(
            fills_applied(v, fills),
            f,
        ),
        fills_applied(v, Seq::empty()) == v,
{
    assert(fills.push(f).drop_last() =~= fills);
}

} // verus!

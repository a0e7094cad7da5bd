//! Which windows of a series are followed, and how each one lives.
use vstd::prelude::*;
use crate::collector::net;
use crate::collector::net::nxt;
use crate::collector::phase;
use crate::collector::phase::{next_phase, phase_of, status_of, Phase};
use crate::collector::polymarket;
use crate::collector::polymarket::{predict_slugs, PolyCfg, TokenInst};
use crate::event::{Event, Payload};
use crate::fixed;
use crate::fixed::{max64, sat, trunc_div};
use crate::json;
use crate::json::{amount_field, parse, str_field, Json};
use crate::json::JsonV;
use crate::model::{MarketMeta, MarketStatus};
use crate::text;
use crate::text::{comes_before, joined, lower_ascii, same, upper_ascii};

verus! {

/// What is known of one market.
#[derive(Debug)]
pub struct MarketInfo {
    pub cid: String,
    pub slug: String,
    pub up_token: String,
    pub down_token: String,
    pub up_inst: String,
    pub down_inst: String,
    pub start_ns: i64,
    pub expiry_ns: i64,
    /// The economics of the market, where they are given.
    pub min_order_size: Option<i64>,
    pub tick_size: Option<i64>,
    pub fee_rate: Option<i64>,
}

/// What is known of one market, as the contracts see it.
pub struct InfoV {
    pub cid: Seq<char>,
    pub slug: Seq<char>,
    pub up_token: Seq<char>,
    pub down_token: Seq<char>,
    pub up_inst: Seq<char>,
    pub down_inst: Seq<char>,
    pub start_ns: i64,
    pub expiry_ns: i64,
    pub min_order_size: Option<i64>,
    pub tick_size: Option<i64>,
    pub fee_rate: Option<i64>,
}

impl View for MarketInfo {
    type V = InfoV;

    open spec fn view(&self) -> InfoV {
        InfoV {
            cid: self.cid@,
            slug: self.slug@,
            up_token: self.up_token@,
            down_token: self.down_token@,
            up_inst: self.up_inst@,
            down_inst: self.down_inst@,
            start_ns: self.start_ns,
            expiry_ns: self.expiry_ns,
            min_order_size: self.min_order_size,
            tick_size: self.tick_size,
            fee_rate: self.fee_rate,
        }
    }
}

/// The texts among some values, in their order.
pub open spec fn texts_in(items: Seq<JsonV>) -> Seq<Seq<char>>
    decreases items.len(),
{
    if items.len() == 0 {
        Seq::empty()
    } else {
        match items.last().text() {
            Some(t) => texts_in(items.drop_last()).push(t),
            None => texts_in(items.drop_last()),
        }
    }
}

/// Whether every value is a text.
pub open spec fn all_texts(items: Seq<JsonV>) -> bool {
    forall|i: int| 0 <= i < items.len() ==> (#[trigger] items[i]).text() is Some
}

/// A list of texts: the texts of an array, or a text that is itself a JSON array of texts.
pub open spec fn str_list(v: JsonV) -> Seq<Seq<char>> {
    match v {
        JsonV::Arr(a) => texts_in(a),
        JsonV::Str(s) => match json::json_text(s) {
            Some(JsonV::Arr(b)) => if all_texts(b) {
                texts_in(b)
            } else {
                Seq::empty()
            },
            _ => Seq::empty(),
        },
        _ => Seq::empty(),
    }
}

/// The list of texts of a field.
pub open spec fn list_at(v: Option<JsonV>) -> Seq<Seq<char>> {
    match v {
        Some(x) => str_list(x),
        None => Seq::empty(),
    }
}

fn texts(a: &Vec<Json>) -> (r: (Vec<String>, bool))
    ensures
        text::views(r.0@) == texts_in(json::value_views(a@)),
        r.1 == all_texts(json::value_views(a@)),
{
    let ghost items = json::value_views(a@);
    let mut r: Vec<String> = Vec::new();
    let mut whole: bool = true;
    let mut i: usize = 0;
    assert(items.take(0) =~= Seq::<JsonV>::empty());
    assert(text::views(r@) =~= Seq::<Seq<char>>::empty());
    while i < a.len()
        invariant
            items == json::value_views(a@),
            i <= a@.len(),
            text::views(r@) == texts_in(items.take(i as int)),
            whole == (forall|j: int| 0 <= j < i ==> (#[trigger] items[j]).text() is Some),
        decreases a@.len() - i,
    {
        assert(items.take(i + 1).drop_last() =~= items.take(i as int));
        assert(items.take(i + 1).last() == items[i as int]);
        match a[i].as_str() {
            Some(t) => {
                let ghost r0 = r@;
                let ghost tv = t@;
                r.push(t.to_string());
                assert(text::views(r@) =~= text::views(r0).push(tv));
            },
            None => {
                assert(items[i as int].text() is None);
                whole = false;
            },
        }
        i = i + 1;
    }
    assert(items.take(items.len() as int) =~= items);
    (r, whole)
}

/// Reads a list of texts, in either form.
pub fn json_str_array(v: &Json) -> (r: Vec<String>)
    ensures
        text::views(r@) == str_list(v@),
{
    let none: Vec<String> = Vec::new();
    assert(text::views(none@) =~= Seq::<Seq<char>>::empty());
    if let Some(a) = v.as_array() {
        let (r, _) = texts(a);
        assert(v@.items()->0 =~= json::value_views(a@));
        return r;
    }
    if let Some(s) = v.as_str() {
        if let Some(j) = parse(s) {
            if let Some(b) = j.as_array() {
                let (r, whole) = texts(b);
                assert(j@.items()->0 =~= json::value_views(b@));
                if whole {
                    return r;
                }
            }
        }
    }
    none
}

/// Whether an outcome is the one that pays when the price rises.
pub open spec fn is_up(o: Seq<char>) -> bool {
    text::lowered(o) == "up"@ || text::lowered(o) == "yes"@
}

/// The first such outcome from `i` on; the first of all where there is none.
pub open spec fn up_from(o: Seq<Seq<char>>, i: int) -> int
    decreases o.len() - i,
{
    if i >= o.len() {
        0
    } else if is_up(o[i]) {
        i
    } else {
        up_from(o, i + 1)
    }
}

/// The instrument of an outcome, named by its label or, where it has none, by `other`.
pub open spec fn instrument_of(cid: Seq<char>, o: Seq<Seq<char>>, i: int, other: Seq<char>) -> Seq<
    char,
> {
    "polymarket."@ + cid + "."@ + text::uppered(
        if i < o.len() {
            o[i]
        } else {
            other
        },
    )
}

/// The id of a market: the first of three fields that is there, which has to be a text.
pub open spec fn cid_of(m: JsonV) -> Option<Seq<char>> {
    json::text_at(
        match m.field("conditionId"@) {
            Some(x) => Some(x),
            None => match m.field("condition_id"@) {
                Some(x) => Some(x),
                None => m.field("id"@),
            },
        },
    )
}

/// The market that a listing tells of; nothing where it has no id or not both tokens. Its
/// window begins where its slug says, and lasts for the window's length.
pub open spec fn info_of(m: JsonV, slug: Seq<char>, start_sec: i64, window_sec: i64) -> Option<
    InfoV,
> {
    let tokens = list_at(m.field("clobTokenIds"@));
    let outcomes = list_at(m.field("outcomes"@));
    let up = up_from(outcomes, 0);
    let down: int = if up == 0 {
        1
    } else {
        0
    };
    match cid_of(m) {
        Some(cid) => if tokens.len() < 2 || up >= tokens.len() {
            None
        } else {
            Some(
                InfoV {
                    cid,
                    slug,
                    up_token: tokens[up],
                    down_token: tokens[down],
                    up_inst: instrument_of(cid, outcomes, up, "UP"@),
                    down_inst: instrument_of(cid, outcomes, down, "DOWN"@),
                    start_ns: fixed::clamp64(start_sec * 1_000_000_000) as i64,
                    expiry_ns: fixed::clamp64((start_sec + window_sec) * 1_000_000_000) as i64,
                    min_order_size: json::amount_at(m.field("orderMinSize"@)),
                    tick_size: json::amount_at(m.field("orderPriceMinTickSize"@)),
                    fee_rate: json::amount_at(json::at(m.field("feeSchedule"@), "rate"@)),
                },
            )
        },
        None => None,
    }
}

fn find_up(o: &Vec<String>) -> (r: usize)
    ensures
        r == up_from(text::views(o@), 0),
        r == 0 || r < o@.len(),
{
    let ghost ov = text::views(o@);
    let mut i: usize = 0;
    while i < o.len()
        invariant
            ov == text::views(o@),
            i <= o@.len(),
            up_from(ov, 0) == up_from(ov, i as int),
        decreases o@.len() - i,
    {
        assert(ov[i as int] == o@[i as int]@);
        let l = lower_ascii(o[i].as_str());
        if same(l.as_str(), "up") || same(l.as_str(), "yes") {
            return i;
        }
        i = i + 1;
    }
    0
}

fn instrument(cid: &str, o: &Vec<String>, i: usize, other: &str) -> (r: String)
    ensures
        r@ == instrument_of(cid@, text::views(o@), i as int, other@),
{
    let label = if i < o.len() {
        upper_ascii(o[i].as_str())
    } else {
        upper_ascii(other)
    };
    let a = joined("polymarket.", cid);
    let b = joined(a.as_str(), ".");
    joined(b.as_str(), label.as_str())
}

fn list_field(m: &Json, k: &str) -> (r: Vec<String>)
    ensures
        text::views(r@) == list_at(m@.field(k@)),
{
    match m.get(k) {
        Some(v) => json_str_array(v),
        None => {
            let r: Vec<String> = Vec::new();
            assert(text::views(r@) =~= Seq::<Seq<char>>::empty());
            r
        },
    }
}

/// Reads the market of a listing.
pub fn parse_market(m: &Json, slug: &str, start_sec: i64, window_sec: i64) -> (r: Option<
    MarketInfo,
>)
    ensures
        match r {
            Some(i) => info_of(m@, slug@, start_sec, window_sec) == Some(i@),
            None => info_of(m@, slug@, start_sec, window_sec) is None,
        },
{
    let id = match m.get("conditionId") {
        Some(x) => Some(x),
        None => match m.get("condition_id") {
            Some(x) => Some(x),
            None => m.get("id"),
        },
    };
    let cid: String = match id {
        Some(x) => match x.as_str() {
            Some(c) => c.to_string(),
            None => {
                return None;
            },
        },
        None => {
            return None;
        },
    };
    let tokens = list_field(m, "clobTokenIds");
    if tokens.len() < 2 {
        return None;
    }
    let outcomes = list_field(m, "outcomes");
    let up: usize = find_up(&outcomes);
    let down: usize = if up == 0 {
        1
    } else {
        0
    };
    if up >= tokens.len() {
        return None;
    }
    let fee_rate: Option<i64> = match m.get("feeSchedule") {
        Some(f) => amount_field(f, "rate"),
        None => None,
    };
    Some(
        MarketInfo {
            up_inst: instrument(cid.as_str(), &outcomes, up, "UP"),
            down_inst: instrument(cid.as_str(), &outcomes, down, "DOWN"),
            cid,
            slug: slug.to_string(),
            up_token: tokens[up].clone(),
            down_token: tokens[down].clone(),
            start_ns: sat(start_sec as i128 * 1_000_000_000),
            expiry_ns: sat((start_sec as i128 + window_sec as i128) * 1_000_000_000),
            min_order_size: amount_field(m, "orderMinSize"),
            tick_size: amount_field(m, "orderPriceMinTickSize"),
            fee_rate,
        },
    )
}

/// The market that a reply to a lookup tells of: the first of its list, which is the reply
/// itself or its `markets`.
pub open spec fn first_listed(reply: JsonV) -> Option<JsonV> {
    let list = match reply {
        JsonV::Arr(a) => Some(a),
        _ => match reply.field("markets"@) {
            Some(JsonV::Arr(a)) => Some(a),
            _ => None,
        },
    };
    match list {
        Some(a) => if a.len() > 0 {
            Some(a[0])
        } else {
            None
        },
        None => None,
    }
}

/// Reads the reply to a lookup.
pub fn read_lookup(reply: &Json, slug: &str, start_sec: i64, window_sec: i64) -> (r: Option<
    MarketInfo,
>)
    ensures
        match (r, first_listed(reply@)) {
            (Some(i), Some(m)) => info_of(m, slug@, start_sec, window_sec) == Some(i@),
            (None, Some(m)) => info_of(m, slug@, start_sec, window_sec) is None,
            (Some(_), None) => false,
            (None, None) => true,
        },
{
    let list = match reply.as_array() {
        Some(a) => Some(a),
        None => match reply.get("markets") {
            Some(l) => l.as_array(),
            None => None,
        },
    };
    match list {
        Some(a) => if a.len() > 0 {
            parse_market(&a[0], slug, start_sec, window_sec)
        } else {
            None
        },
        None => None,
    }
}

/// Where the market of a slug is looked up.
pub fn lookup_url(slug: &str) -> (r: String)
    ensures
        r@ == "https://gamma-api.polymarket.com/markets?slug="@ + slug@,
{
    joined("https://gamma-api.polymarket.com/markets?slug=", slug)
}

/// One market.
#[derive(Debug)]
pub struct Market {
    pub info: MarketInfo,
    pub phase: Phase,
}

/// A market, as the contracts see it.
pub struct MarketV {
    pub info: InfoV,
    pub phase: Phase,
}

impl View for Market {
    type V = MarketV;

    open spec fn view(&self) -> MarketV {
        MarketV { info: self.info@, phase: self.phase }
    }
}

/// The views of a run of markets.
pub open spec fn market_views(s: Seq<Market>) -> Seq<MarketV> {
    Seq::new(s.len(), |i: int| s[i]@)
}

/// Whether a slug is followed.
pub open spec fn is_known(s: Seq<MarketV>, slug: Seq<char>) -> bool {
    exists|i: int| 0 <= i < s.len() && (#[trigger] s[i]).info.slug == slug
}

/// The slugs of these windows that are not followed, in their order.
pub open spec fn fresh(s: Seq<MarketV>, ws: Seq<(Seq<char>, i64)>) -> Seq<(Seq<char>, i64)>
    decreases ws.len(),
{
    if ws.len() == 0 {
        Seq::empty()
    } else if is_known(s, ws.last().0) {
        fresh(s, ws.drop_last())
    } else {
        fresh(s, ws.drop_last()).push(ws.last())
    }
}

/// The windows from the current one on, each with its slug.
pub open spec fn windows(cfg: PolyCfg, now: i64) -> Seq<(Seq<char>, i64)> {
    let sec = fixed::trunc_quotient(now as int, 1_000_000_000) as i64;
    Seq::new(
        cfg.n_windows as nat,
        |i: int|
            (
                polymarket::slug_of(
                    cfg.prefix@,
                    polymarket::window_start(cfg.window_sec, i, sec),
                ),
                polymarket::window_start(cfg.window_sec, i, sec),
            ),
    )
}

/// The views of a run of slugs.
pub open spec fn slug_views(s: Seq<(String, i64)>) -> Seq<(Seq<char>, i64)> {
    Seq::new(s.len(), |i: int| (s[i].0@, s[i].1))
}

/// Whether a catalog entry says what a market is.
pub open spec fn is_entry(e: MarketMeta, m: MarketV, kind: Seq<char>) -> bool {
    &&& e.instrument@ == m.info.up_inst
    &&& e.kind@ == kind
    &&& e.status == phase::status_for(m.phase)
    &&& e.start_ts_ns == Some(m.info.start_ns)
    &&& e.expiry_ts_ns == Some(m.info.expiry_ns)
    &&& e.winner is None
    &&& e.min_order_size == m.info.min_order_size
    &&& e.tick_size == m.info.tick_size
    &&& e.fee_rate == m.info.fee_rate
    &&& e.strike is None
}

/// Whether a run of catalog entries says what these markets are, in their order.
pub open spec fn are_entries(es: Seq<MarketMeta>, ms: Seq<MarketV>, kind: Seq<char>) -> bool {
    &&& es.len() == ms.len()
    &&& forall|i: int| 0 <= i < es.len() ==> is_entry(#[trigger] es[i], ms[i], kind)
}

/// The catalog entry of a market.
pub fn catalog_entry(m: &Market, kind: &str) -> (r: MarketMeta)
    ensures
        is_entry(r, m@, kind@),
{
    MarketMeta {
        instrument: m.info.up_inst.clone(),
        kind: kind.to_string(),
        status: status_of(m.phase),
        start_ts_ns: Some(m.info.start_ns),
        expiry_ts_ns: Some(m.info.expiry_ns),
        winner: None,
        min_order_size: m.info.min_order_size,
        tick_size: m.info.tick_size,
        fee_rate: m.info.fee_rate,
        strike: None,
    }
}

/// Whether a market is taken up: it is new and not over.
pub open spec fn is_taken(s: Seq<MarketV>, i: InfoV, now: i64) -> bool {
    !is_known(s, i.slug) && phase::phase_at(now, i.start_ns, i.expiry_ns) != Phase::Expired
}

/// The market that is taken up.
pub open spec fn market_from(i: InfoV, now: i64) -> MarketV {
    MarketV { info: i, phase: phase::phase_at(now, i.start_ns, i.expiry_ns) }
}

/// The phase of a market after one look at the clock.
pub open spec fn phase_in(m: MarketV, now: i64) -> Phase {
    phase::phase_after(m.phase, m.info.start_ns, m.info.expiry_ns, now)
}

/// The markets after one look at the clock.
pub open spec fn advanced(s: Seq<MarketV>, now: i64) -> Seq<MarketV> {
    Seq::new(s.len(), |i: int| MarketV { phase: phase_in(s[i], now), ..s[i] })
}

/// The markets that move on at this look, as they are after it.
pub open spec fn moved(s: Seq<MarketV>, now: i64) -> Seq<MarketV>
    decreases s.len(),
{
    if s.len() == 0 {
        Seq::empty()
    } else {
        let m = s.last();
        if phase_in(m, now) != m.phase {
            moved(s.drop_last(), now).push(MarketV { phase: phase_in(m, now), ..m })
        } else {
            moved(s.drop_last(), now)
        }
    }
}

/// The instant at which something is next to be done about a market.
pub open spec fn boundary(m: MarketV, grace_s: i64) -> int {
    match m.phase {
        Phase::Upcoming => m.info.start_ns as int,
        Phase::Live => m.info.expiry_ns as int,
        Phase::Expired => m.info.expiry_ns + grace_s * 1_000_000_000,
    }
}

/// The markets that are kept: those that are over go once the grace time has passed.
pub open spec fn retained(s: Seq<MarketV>, now: i64, grace_s: i64) -> Seq<MarketV>
    decreases s.len(),
{
    if s.len() == 0 {
        Seq::empty()
    } else {
        let m = s.last();
        if m.phase == Phase::Expired && now >= boundary(m, grace_s) {
            retained(s.drop_last(), now, grace_s)
        } else {
            retained(s.drop_last(), now, grace_s).push(m)
        }
    }
}

/// The first instant after `now` at which something is to be done, and `limit` at the latest.
pub open spec fn wake_by(s: Seq<MarketV>, now: i64, limit: int, grace_s: i64) -> int
    decreases s.len(),
{
    if s.len() == 0 {
        limit
    } else {
        let w = wake_by(s.drop_last(), now, limit, grace_s);
        let b = boundary(s.last(), grace_s);
        if now < b < w {
            b
        } else {
            w
        }
    }
}

/// How long to sleep: until the next lookup or the next boundary, for at least a millisecond.
pub open spec fn sleep_for(
    s: Seq<MarketV>,
    now: i64,
    last_lookup: i64,
    interval_s: u64,
    grace_s: i64,
) -> i64 {
    fixed::clamp64(
        fixed::larger(
            wake_by(s, now, last_lookup + interval_s * 1_000_000_000, grace_s) - now,
            1_000_000,
        ),
    ) as i64
}

/// One token that is wanted, as the contracts see it.
pub struct TokenV {
    pub token: Seq<char>,
    pub cid: Seq<char>,
    pub instrument: Seq<char>,
}

/// The views of a run of tokens.
pub open spec fn token_views(s: Seq<TokenInst>) -> Seq<TokenV> {
    Seq::new(
        s.len(),
        |i: int| TokenV { token: s[i].token@, cid: s[i].cid@, instrument: s[i].instrument@ },
    )
}

/// The order of tokens: by token, then by market, then by instrument.
pub open spec fn token_before(a: TokenV, b: TokenV) -> bool {
    text::before(a.token, b.token) || (a.token == b.token && (text::before(a.cid, b.cid) || (a.cid
        == b.cid && text::before(a.instrument, b.instrument))))
}

/// `s` with a token put in by that order.
pub open spec fn put_token(s: Seq<TokenV>, t: TokenV) -> Seq<TokenV>
    decreases s.len(),
{
    if s.len() == 0 || !token_before(t, s.last()) {
        s.push(t)
    } else {
        put_token(s.drop_last(), t).push(s.last())
    }
}

/// The tokens that are wanted for these markets: both of each one that is not over, sorted.
pub open spec fn wanted(s: Seq<MarketV>) -> Seq<TokenV>
    decreases s.len(),
{
    if s.len() == 0 {
        Seq::empty()
    } else {
        let before = wanted(s.drop_last());
        let m = s.last();
        if m.phase == Phase::Expired {
            before
        } else {
            put_token(
                put_token(
                    before,
                    TokenV { token: m.info.up_token, cid: m.info.cid, instrument: m.info.up_inst },
                ),
                TokenV {
                    token: m.info.down_token,
                    cid: m.info.cid,
                    instrument: m.info.down_inst,
                },
            )
        }
    }
}

fn goes_before(a: &TokenInst, b: &TokenInst) -> (r: bool)
    ensures
        r == token_before(
            TokenV { token: a.token@, cid: a.cid@, instrument: a.instrument@ },
            TokenV { token: b.token@, cid: b.cid@, instrument: b.instrument@ },
        ),
{
    comes_before(a.token.as_str(), b.token.as_str()) || (same(a.token.as_str(), b.token.as_str())
        && (comes_before(a.cid.as_str(), b.cid.as_str()) || (same(a.cid.as_str(), b.cid.as_str())
        && comes_before(a.instrument.as_str(), b.instrument.as_str()))))
}

fn put_sorted(v: &mut Vec<TokenInst>, t: TokenInst)
    ensures
        token_views(final(v)@) == put_token(
            token_views(old(v)@),
            TokenV { token: t.token@, cid: t.cid@, instrument: t.instrument@ },
        ),
{
    let ghost s = token_views(v@);
    let ghost p = TokenV { token: t.token@, cid: t.cid@, instrument: t.instrument@ };
    let mut i: usize = v.len();
    assert(s.take(i as int) =~= s);
    assert(put_token(s, p) =~= put_token(s.take(i as int), p) + s.skip(i as int));
    while i > 0 && goes_before(&t, &v[i - 1])
        invariant
            s == token_views(v@),
            p == (TokenV { token: t.token@, cid: t.cid@, instrument: t.instrument@ }),
            i <= v@.len(),
            put_token(s, p) == put_token(s.take(i as int), p) + s.skip(i as int),
        decreases i,
    {
        let ghost x = s.take(i as int);
        assert(x.last() == s[i - 1]);
        assert(x.drop_last() =~= s.take(i - 1));
        assert(put_token(s.take(i - 1), p).push(x.last()) + s.skip(i as int) =~= put_token(
            s.take(i - 1),
            p,
        ) + s.skip(i - 1));
        i = i - 1;
    }
    proof {
        let x = s.take(i as int);
        if i > 0 {
            assert(x.last() == s[i - 1]);
        }
        assert(put_token(x, p) == x.push(p));
    }
    v.insert(i, t);
    assert(token_views(v@) =~= s.take(i as int).push(p) + s.skip(i as int));
}

/// The markets that are followed.
pub struct Registry {
    markets: Vec<Market>,
}

impl View for Registry {
    type V = Seq<MarketV>;

    closed spec fn view(&self) -> Seq<MarketV> {
        market_views(self.markets@)
    }
}

impl Registry {
    /// No markets.
    pub fn new() -> (r: Registry)
        ensures
            r@ == Seq::<MarketV>::empty(),
    {
        let r = Registry { markets: Vec::new() };
        assert(r@ =~= Seq::<MarketV>::empty());
        r
    }

    fn knows(&self, slug: &str) -> (r: bool)
        ensures
            r == is_known(self@, slug@),
    {
        let mut i: usize = 0;
        while i < self.markets.len()
            invariant
                i <= self.markets@.len(),
                forall|j: int| 0 <= j < i ==> (#[trigger] self@[j]).info.slug != slug@,
            decreases self.markets@.len() - i,
        {
            assert(self@[i as int] == self.markets@[i as int]@);
            if same(self.markets[i].info.slug.as_str(), slug) {
                return true;
            }
            i = i + 1;
        }
        false
    }

    /// The windows that are to be looked up.
    pub fn to_look_up(&self, cfg: &PolyCfg, now: i64) -> (r: Vec<(String, i64)>)
        requires
            cfg.window_sec != 0,
        ensures
            slug_views(r@) == fresh(self@, windows(*cfg, now)),
    {
        let ghost ws = windows(*cfg, now);
        let sec: i64 = trunc_div(now, 1_000_000_000) as i64;
        let mut queue = predict_slugs(cfg.prefix.as_str(), cfg.window_sec, cfg.n_windows, sec);
        assert(slug_views(queue@) =~= ws);
        let ghost all = queue@;
        let n: usize = queue.len();
        let mut r: Vec<(String, i64)> = Vec::new();
        let mut i: usize = 0;
        assert(queue@ =~= all.skip(0));
        assert(ws.take(0) =~= Seq::<(Seq<char>, i64)>::empty());
        assert(slug_views(r@) =~= Seq::<(Seq<char>, i64)>::empty());
        while i < n
            invariant
                n == all.len(),
                ws == slug_views(all),
                i <= n,
                queue@ == all.skip(i as int),
                slug_views(r@) == fresh(self@, ws.take(i as int)),
            decreases n - i,
        {
            assert(ws.take(i + 1).drop_last() =~= ws.take(i as int));
            assert(ws.take(i + 1).last() == ws[i as int]);
            let w = queue.remove(0);
            assert(queue@ =~= all.skip(i + 1));
            assert((w.0@, w.1) == ws[i as int]);
            if !self.knows(w.0.as_str()) {
                let ghost r0 = r@;
                let ghost wv = (w.0@, w.1);
                r.push(w);
                assert(slug_views(r@) =~= slug_views(r0).push(wv));
            }
            i = i + 1;
        }
        assert(ws.take(ws.len() as int) =~= ws);
        r
    }

    /// Takes a market up, if it is new and not over; says what it is.
    pub fn take_up(&mut self, info: MarketInfo, now: i64, kind: &str) -> (r: Option<MarketMeta>)
        ensures
            r is Some == is_taken(old(self)@, info@, now),
            final(self)@ == (if r is Some {
                old(self)@.push(market_from(info@, now))
            } else {
                old(self)@
            }),
            r is Some ==> is_entry(r->0, market_from(info@, now), kind@),
    {
        let phase = phase_of(now, info.start_ns, info.expiry_ns);
        if self.knows(info.slug.as_str()) || phase == Phase::Expired {
            return None;
        }
        let ghost s0 = self@;
        let m = Market { info, phase };
        let e = catalog_entry(&m, kind);
        let ghost mv = m@;
        self.markets.push(m);
        assert(self@ =~= s0.push(mv));
        Some(e)
    }

    /// Moves every market on by the clock, and drops those that have been over for long;
    /// says which moved.
    pub fn tick(&mut self, now: i64, cfg: &PolyCfg) -> (r: Vec<MarketMeta>)
        ensures
            final(self)@ == retained(advanced(old(self)@, now), now, cfg.unsub_grace_s),
            are_entries(r@, moved(old(self)@, now), cfg.kind@),
    {
        let ghost s0 = self@;
        let mut queue: Vec<Market> = Vec::new();
        std::mem::swap(&mut queue, &mut self.markets);
        let ghost all = queue@;
        let n: usize = queue.len();
        let mut keep: Vec<Market> = Vec::new();
        let mut out: Vec<MarketMeta> = Vec::new();
        let grace: i128 = cfg.unsub_grace_s as i128 * 1_000_000_000;
        let mut i: usize = 0;
        let ghost adv = advanced(s0, now);
        assert(queue@ =~= all.skip(0));
        assert(s0.take(0) =~= Seq::<MarketV>::empty());
        assert(adv.take(0) =~= Seq::<MarketV>::empty());
        assert(market_views(keep@) =~= Seq::<MarketV>::empty());
        while i < n
            invariant
                n == all.len(),
                s0 == market_views(all),
                adv == advanced(s0, now),
                i <= n,
                queue@ == all.skip(i as int),
                grace == cfg.unsub_grace_s * 1_000_000_000,
                market_views(keep@) == retained(adv.take(i as int), now, cfg.unsub_grace_s),
                are_entries(out@, moved(s0.take(i as int), now), cfg.kind@),
            decreases n - i,
        {
            assert(s0.take(i + 1).drop_last() =~= s0.take(i as int));
            assert(s0.take(i + 1).last() == s0[i as int]);
            assert(adv.take(i + 1).drop_last() =~= adv.take(i as int));
            assert(adv.take(i + 1).last() == adv[i as int]);
            let mut m = queue.remove(0);
            assert(queue@ =~= all.skip(i + 1));
            assert(m@ == s0[i as int]);
            let to = next_phase(m.phase, m.info.start_ns, m.info.expiry_ns, now);
            let turn: bool = to != m.phase;
            m.phase = to;
            assert(m@ == adv[i as int]);
            if turn {
                let ghost o0 = out@;
                let e = catalog_entry(&m, cfg.kind.as_str());
                out.push(e);
                assert forall|j: int| 0 <= j < out@.len() implies is_entry(
                    #[trigger] out@[j],
                    moved(s0.take(i + 1), now)[j],
                    cfg.kind@,
                ) by {
                    if j < o0.len() {
                        assert(out@[j] == o0[j]);
                    }
                }
            }
            if !(m.phase == Phase::Expired && now as i128 >= m.info.expiry_ns as i128 + grace) {
                let ghost k0 = keep@;
                keep.push(m);
                assert(market_views(keep@) =~= market_views(k0).push(m@));
            }
            i = i + 1;
        }
        assert(s0.take(s0.len() as int) =~= s0);
        assert(adv.take(adv.len() as int) =~= adv);
        self.markets = keep;
        out
    }

    /// How long to sleep, in nanoseconds.
    pub fn next_sleep(&self, now: i64, last_lookup: i64, cfg: &PolyCfg) -> (r: i64)
        ensures
            r == sleep_for(self@, now, last_lookup, cfg.discovery_interval_s, cfg.unsub_grace_s),
    {
        let limit: i128 = last_lookup as i128 + cfg.discovery_interval_s as i128 * 1_000_000_000;
        let grace: i128 = cfg.unsub_grace_s as i128 * 1_000_000_000;
        let mut w: i128 = limit;
        let mut i: usize = 0;
        assert(self@.take(0) =~= Seq::<MarketV>::empty());
        while i < self.markets.len()
            invariant
                i <= self.markets@.len(),
                grace == cfg.unsub_grace_s * 1_000_000_000,
                limit == last_lookup + cfg.discovery_interval_s * 1_000_000_000,
                w == wake_by(self@.take(i as int), now, limit as int, cfg.unsub_grace_s),
                w <= limit,
                w > now || w == limit,
            decreases self.markets@.len() - i,
        {
            assert(self@.take(i + 1).drop_last() =~= self@.take(i as int));
            assert(self@.take(i + 1).last() == self.markets@[i as int]@);
            let m = &self.markets[i];
            let b: i128 = match m.phase {
                Phase::Upcoming => m.info.start_ns as i128,
                Phase::Live => m.info.expiry_ns as i128,
                Phase::Expired => m.info.expiry_ns as i128 + grace,
            };
            if b > now as i128 && b < w {
                w = b;
            }
            i = i + 1;
        }
        assert(self@.take(self@.len() as int) =~= self@);
        max64(sat(w - now as i128), 1_000_000)
    }

    /// The tokens that are wanted of the feed.
    pub fn desired(&self) -> (r: Vec<TokenInst>)
        ensures
            token_views(r@) == wanted(self@),
    {
        let mut v: Vec<TokenInst> = Vec::new();
        let mut i: usize = 0;
        assert(self@.take(0) =~= Seq::<MarketV>::empty());
        assert(token_views(v@) =~= Seq::<TokenV>::empty());
        while i < self.markets.len()
            invariant
                i <= self.markets@.len(),
                token_views(v@) == wanted(self@.take(i as int)),
            decreases self.markets@.len() - i,
        {
            assert(self@.take(i + 1).drop_last() =~= self@.take(i as int));
            assert(self@.take(i + 1).last() == self.markets@[i as int]@);
            let m = &self.markets[i];
            if m.phase != Phase::Expired {
                put_sorted(
                    &mut v,
                    TokenInst {
                        token: m.info.up_token.clone(),
                        cid: m.info.cid.clone(),
                        instrument: m.info.up_inst.clone(),
                    },
                );
                put_sorted(
                    &mut v,
                    TokenInst {
                        token: m.info.down_token.clone(),
                        cid: m.info.cid.clone(),
                        instrument: m.info.down_inst.clone(),
                    },
                );
            }
            i = i + 1;
        }
        assert(self@.take(self@.len() as int) =~= self@);
        v
    }
}

/// Whether it is time for another lookup.
pub fn lookup_due(now: i64, last_lookup: i64, interval_s: u64) -> (r: bool)
    ensures
        r == (now - last_lookup >= interval_s * 1_000_000_000),
{
    now as i128 - last_lookup as i128 >= interval_s as i128 * 1_000_000_000
}

/// The request that subscribes to the books of these tokens.
pub open spec fn subscribe_body(tokens: Seq<Seq<char>>) -> JsonV {
    JsonV::Obj(
        seq![
            ("type"@, JsonV::Str("subscribe"@)),
            ("channel"@, JsonV::Str("book"@)),
            ("assets_ids"@, JsonV::Arr(json::text_values(tokens))),
        ],
    )
}

/// The tokens of what is wanted.
pub open spec fn tokens_of(s: Seq<TokenInst>) -> Seq<Seq<char>> {
    Seq::new(s.len(), |i: int| s[i].token@)
}

/// The request that subscribes to the books of what is wanted.
pub fn subscribe_request(wanted: &Vec<TokenInst>) -> (r: Json)
    ensures
        r@ == subscribe_body(tokens_of(wanted@)),
{
    let ghost ts = tokens_of(wanted@);
    let mut ids: Vec<Json> = Vec::new();
    let mut i: usize = 0;
    assert(json::value_views(ids@) =~= json::text_values(ts).take(0));
    while i < wanted.len()
        invariant
            ts == tokens_of(wanted@),
            i <= wanted@.len(),
            json::value_views(ids@) == json::text_values(ts).take(i as int),
        decreases wanted@.len() - i,
    {
        let ghost t0 = ids@;
        ids.push(json::string(wanted[i].token.as_str()));
        assert(json::value_views(ids@) =~= json::value_views(t0).push(JsonV::Str(ts[i as int])));
        assert(json::text_values(ts).take(i + 1) =~= json::text_values(ts).take(i as int).push(
            JsonV::Str(ts[i as int]),
        ));
        i = i + 1;
    }
    assert(json::text_values(ts).take(ts.len() as int) =~= json::text_values(ts));
    let mut f: Vec<(String, Json)> = Vec::new();
    f.push(json::text_pair("type", "subscribe"));
    f.push(json::text_pair("channel", "book"));
    f.push(json::pair("assets_ids", json::array(ids)));
    assert(json::field_views(f@) =~= subscribe_body(ts)->Obj_0);
    json::object(f)
}

/// Whether no two markets have one slug.
pub open spec fn distinct(s: Seq<MarketV>) -> bool {
    forall|i: int, j: int|
        0 <= i < j < s.len() ==> (#[trigger] s[i]).info.slug != (#[trigger] s[j]).info.slug
}

proof fn lemma_retained_within(s: Seq<MarketV>, now: i64, grace_s: i64)
    requires
        distinct(s),
    ensures
        distinct(retained(s, now, grace_s)),
        forall|i: int|
            0 <= i < retained(s, now, grace_s).len() ==> is_known(
                s,
                (#[trigger] retained(s, now, grace_s)[i]).info.slug,
            ),
    decreases s.len(),
{
    if s.len() > 0 {
        let d = s.drop_last();
        assert forall|i: int, j: int| 0 <= i < j < d.len() implies (#[trigger] d[i]).info.slug != (
        #[trigger] d[j]).info.slug by {
            assert(d[i] == s[i] && d[j] == s[j]);
        }
        lemma_retained_within(d, now, grace_s);
        let r = retained(d, now, grace_s);
        let whole = retained(s, now, grace_s);
        assert forall|i: int| 0 <= i < whole.len() implies is_known(
            s,
            (#[trigger] whole[i]).info.slug,
        ) by {
            if i < r.len() {
                assert(whole[i] == r[i]);
                let k = choose|k: int| 0 <= k < d.len() && (#[trigger] d[k]).info.slug
                    == r[i].info.slug;
                assert(s[k] == d[k]);
            } else {
                assert(s[s.len() - 1].info.slug == whole[i].info.slug);
            }
        }
        assert forall|i: int, j: int| 0 <= i < j < whole.len() implies (
        #[trigger] whole[i]).info.slug != (#[trigger] whole[j]).info.slug by {
            if j < r.len() {
                assert(whole[i] == r[i] && whole[j] == r[j]);
            } else {
                assert(whole[i] == r[i]);
                let k = choose|k: int| 0 <= k < d.len() && (#[trigger] d[k]).info.slug
                    == r[i].info.slug;
                assert(s[k] == d[k]);
                assert(whole[j] == s[s.len() - 1]);
            }
        }
    }
}

/// No window is followed twice: taking a market up and moving the markets on both keep the
/// slugs apart.
pub proof fn law_slugs_stay_distinct(s: Seq<MarketV>, i: InfoV, now: i64, grace_s: i64)
    requires
        distinct(s),
    ensures
        is_taken(s, i, now) ==> distinct(s.push(market_from(i, now))),
        distinct(retained(advanced(s, now), now, grace_s)),
{
    let a = advanced(s, now);
    assert forall|x: int, y: int| 0 <= x < y < a.len() implies (#[trigger] a[x]).info.slug != (
    #[trigger] a[y]).info.slug by {
        assert(a[x].info == s[x].info && a[y].info == s[y].info);
    }
    lemma_retained_within(a, now, grace_s);
    if is_taken(s, i, now) {
        let p = s.push(market_from(i, now));
        assert forall|x: int, y: int| 0 <= x < y < p.len() implies (#[trigger] p[x]).info.slug != (
        #[trigger] p[y]).info.slug by {
            assert(p[x] == s[x]);
            if y < s.len() {
                assert(p[y] == s[y]);
            }
        }
    }
}

/// No boundary is slept over: a sleep ends by the next lookup and by every boundary that
/// is still to come, unless that is less than a millisecond away.
pub proof fn law_boundaries_are_met(
    s: Seq<MarketV>,
    now: i64,
    last_lookup: i64,
    interval_s: u64,
    grace_s: i64,
    i: int,
)
    requires
        0 <= i < s.len(),
        now < boundary(s[i], grace_s),
    ensures
        ({
            let d = sleep_for(s, now, last_lookup, interval_s, grace_s);
            &&& d >= 1_000_000
            &&& d == 1_000_000 || now + d <= boundary(s[i], grace_s)
            &&& d == 1_000_000 || now + d <= last_lookup + interval_s * 1_000_000_000
        }),
{
    let limit = last_lookup + interval_s * 1_000_000_000;
    lemma_wake_is_first(s, now, limit, grace_s, i);
}

proof fn lemma_wake_is_first(s: Seq<MarketV>, now: i64, limit: int, grace_s: i64, i: int)
    requires
        0 <= i < s.len(),
        now < boundary(s[i], grace_s),
    ensures
        wake_by(s, now, limit, grace_s) <= limit,
        wake_by(s, now, limit, grace_s) <= boundary(s[i], grace_s),
    decreases s.len(),
{
    lemma_wake_limit(s.drop_last(), now, limit, grace_s);
    if i < s.len() - 1 {
        assert(s.drop_last()[i] == s[i]);
        lemma_wake_is_first(s.drop_last(), now, limit, grace_s, i);
    }
}

proof fn lemma_wake_limit(s: Seq<MarketV>, now: i64, limit: int, grace_s: i64)
    ensures
        wake_by(s, now, limit, grace_s) <= limit,
    decreases s.len(),
{
    if s.len() > 0 {
        lemma_wake_limit(s.drop_last(), now, limit, grace_s);
    }
}

/// The event that tells of a market.
pub fn catalog_event(meta: MarketMeta, now: i64, seq: &mut u64) -> (r: Event)
    ensures
        r.topic@ == "market.polymarket.catalog"@,
        r.source@ == "poly"@,
        r.ts_ns == now,
        r.seq == *old(seq),
        *final(seq) == net::counted(*old(seq), 1),
        r.payload == Payload::Meta(meta),
{
    Event {
        topic: "market.polymarket.catalog".to_string(),
        source: "poly",
        ts_ns: now,
        seq: nxt(seq),
        payload: Payload::Meta(meta),
    }
}

/// One thing that happens to the markets that are followed.
pub enum LifeStep {
    /// A lookup found a market.
    Found { info: InfoV, now: i64 },
    /// The clock was looked at.
    Tick { now: i64 },
}

/// When a step is.
pub open spec fn step_time(e: LifeStep) -> i64 {
    match e {
        LifeStep::Found { info, now } => now,
        LifeStep::Tick { now } => now,
    }
}

/// The markets after a step.
pub open spec fn stepped(s: Seq<MarketV>, e: LifeStep, grace_s: i64) -> Seq<MarketV> {
    match e {
        LifeStep::Found { info, now } => if is_taken(s, info, now) {
            s.push(market_from(info, now))
        } else {
            s
        },
        LifeStep::Tick { now } => retained(advanced(s, now), now, grace_s),
    }
}

/// The markets that a step publishes, as they are then.
pub open spec fn published(s: Seq<MarketV>, e: LifeStep) -> Seq<MarketV> {
    match e {
        LifeStep::Found { info, now } => if is_taken(s, info, now) {
            seq![market_from(info, now)]
        } else {
            Seq::empty()
        },
        LifeStep::Tick { now } => moved(s, now),
    }
}

/// The markets after a run of steps, from none on.
pub open spec fn lived(run: Seq<LifeStep>, grace_s: i64) -> Seq<MarketV>
    decreases run.len(),
{
    if run.len() == 0 {
        Seq::empty()
    } else {
        stepped(lived(run.drop_last(), grace_s), run.last(), grace_s)
    }
}

/// Those of some markets that are of an instrument.
pub open spec fn of_instrument(s: Seq<MarketV>, inst: Seq<char>) -> Seq<MarketV> {
    s.filter(|m: MarketV| m.info.up_inst == inst)
}

/// What a run of steps publishes of an instrument: each status, and when.
pub open spec fn told(run: Seq<LifeStep>, grace_s: i64, inst: Seq<char>) -> Seq<(MarketStatus, i64)>
    decreases run.len(),
{
    if run.len() == 0 {
        Seq::empty()
    } else {
        let now = step_time(run.last());
        told(run.drop_last(), grace_s, inst) + of_instrument(
            published(lived(run.drop_last(), grace_s), run.last()),
            inst,
        ).map_values(|m: MarketV| (phase::status_for(m.phase), now))
    }
}

/// Whether the clock never goes back in a run.
pub open spec fn clock_holds(run: Seq<LifeStep>) -> bool {
    forall|i: int, j: int|
        #![trigger run[i], run[j]]
        0 <= i <= j < run.len() ==> step_time(run[i]) <= step_time(run[j])
}

/// Whether every market of an instrument that a run finds is one and the same: of one slug,
/// which gives its start and its end.
pub open spec fn one_market(
    run: Seq<LifeStep>,
    inst: Seq<char>,
    slug: Seq<char>,
    start_ns: i64,
    expiry_ns: i64,
) -> bool {
    forall|i: int|
        0 <= i < run.len() ==> ((#[trigger] run[i]) matches LifeStep::Found { info, now } ==> (
        info.up_inst == inst ==> info.slug == slug && info.start_ns == start_ns
            && info.expiry_ns == expiry_ns))
}

/// Whether one status comes right after another in a market's life.
pub open spec fn comes_next(a: MarketStatus, b: MarketStatus) -> bool {
    (a == MarketStatus::Upcoming && b == MarketStatus::Live) || (a == MarketStatus::Live && b
        == MarketStatus::Expired)
}

/// Whether a run of published statuses is a market's life or the beginning of one: Upcoming
/// or Live first, then each the next one, so that none is repeated or passed over; Live no
/// earlier than the start, and Expired no earlier than the start and the end.
pub open spec fn is_life(t: Seq<(MarketStatus, i64)>, start_ns: i64, expiry_ns: i64) -> bool {
    &&& t.len() > 0 ==> t[0].0 == MarketStatus::Upcoming || t[0].0 == MarketStatus::Live
    &&& forall|i: int| 0 < i < t.len() ==> comes_next(t[i - 1].0, (#[trigger] t[i]).0)
    &&& forall|i: int|
        0 <= i < t.len() ==> ((#[trigger] t[i]).0 == MarketStatus::Live ==> t[i].1 >= start_ns) && (
        t[i].0 == MarketStatus::Expired ==> t[i].1 >= start_ns && t[i].1 >= expiry_ns)
}

proof fn lemma_own_markets(s: Seq<MarketV>, inst: Seq<char>, now: i64, grace_s: i64)
    ensures
        of_instrument(advanced(s, now), inst) == advanced(of_instrument(s, inst), now),
        of_instrument(retained(s, now, grace_s), inst) == retained(
            of_instrument(s, inst),
            now,
            grace_s,
        ),
        of_instrument(moved(s, now), inst) == moved(of_instrument(s, inst), now),
        of_instrument(s, inst).len() > 0 ==> is_known(s, of_instrument(s, inst)[0].info.slug),
    decreases s.len(),
{
    let p = |m: MarketV| m.info.up_inst == inst;
    reveal(Seq::filter);
    if s.len() == 0 {
        assert(of_instrument(advanced(s, now), inst) =~= advanced(of_instrument(s, inst), now));
    } else {
        let d = s.drop_last();
        let m = s.last();
        let o = of_instrument(d, inst);
        lemma_own_markets(d, inst, now, grace_s);
        assert(advanced(s, now).drop_last() =~= advanced(d, now));
        let a = MarketV { phase: phase_in(m, now), ..m };
        assert(advanced(s, now).last() == a);
        assert(s.filter(p) == if p(m) {
            o.push(m)
        } else {
            o
        });
        if p(m) {
            assert(o.push(m).drop_last() =~= o);
            assert(advanced(o.push(m), now) =~= advanced(o, now).push(a));
        }
        let r = retained(d, now, grace_s);
        assert(r.push(m).drop_last() =~= r);
        let v = moved(d, now);
        assert(v.push(a).drop_last() =~= v);
        if of_instrument(s, inst).len() > 0 {
            if o.len() > 0 {
                let k = choose|k: int| 0 <= k < d.len() && (#[trigger] d[k]).info.slug
                    == o[0].info.slug;
                assert(s[k] == d[k]);
                assert(s[k].info.slug == of_instrument(s, inst)[0].info.slug);
            } else {
                assert(s[s.len() - 1] == m);
                assert(of_instrument(s, inst)[0] == m);
            }
        }
    }
}

/// What holds of an instrument after a run: what was published of it is a life, and what is
/// followed of it stands where that life stands.
spec fn life_so_far(
    o: Seq<MarketV>,
    t: Seq<(MarketStatus, i64)>,
    slug: Seq<char>,
    start_ns: i64,
    expiry_ns: i64,
) -> bool {
    &&& is_life(t, start_ns, expiry_ns)
    &&& o.len() <= 1
    &&& o.len() == 1 ==> {
        &&& o[0].info.slug == slug
        &&& o[0].info.start_ns == start_ns
        &&& o[0].info.expiry_ns == expiry_ns
        &&& t.len() > 0
        &&& t.last().0 == phase::status_for(o[0].phase)
    }
    &&& o.len() == 0 && t.len() > 0 ==> t.last().0 == MarketStatus::Expired
}

proof fn lemma_life(
    run: Seq<LifeStep>,
    grace_s: i64,
    inst: Seq<char>,
    slug: Seq<char>,
    start_ns: i64,
    expiry_ns: i64,
)
    requires
        clock_holds(run),
        one_market(run, inst, slug, start_ns, expiry_ns),
    ensures
        life_so_far(
            of_instrument(lived(run, grace_s), inst),
            told(run, grace_s, inst),
            slug,
            start_ns,
            expiry_ns,
        ),
        forall|i: int|
            0 <= i < told(run, grace_s, inst).len() ==> run.len() > 0 && (#[trigger] told(
                run,
                grace_s,
                inst,
            )[i]).1 <= step_time(run.last()),
    decreases run.len(),
{
    let p = |m: MarketV| m.info.up_inst == inst;
    reveal(Seq::filter);
    if run.len() > 0 {
        let past = run.drop_last();
        let e = run.last();
        let now = step_time(e);
        assert(clock_holds(past));
        assert forall|i: int| 0 <= i < past.len() implies ((#[trigger] past[i])
            matches LifeStep::Found { info, now } ==> (info.up_inst == inst ==> info.slug == slug
            && info.start_ns == start_ns && info.expiry_ns == expiry_ns)) by {
            assert(past[i] == run[i]);
        }
        lemma_life(past, grace_s, inst, slug, start_ns, expiry_ns);
        let s = lived(past, grace_s);
        let o = of_instrument(s, inst);
        let t = told(past, grace_s, inst);
        let pub_s = published(s, e);
        let f = |m: MarketV| (phase::status_for(m.phase), now);
        let more = of_instrument(pub_s, inst).map_values(f);
        let all = told(run, grace_s, inst);
        assert(all == t + more);
        if past.len() > 0 {
            assert(step_time(run[run.len() - 2]) <= step_time(run[run.len() - 1]));
        }
        assert forall|i: int| 0 <= i < t.len() implies (#[trigger] t[i]).1 <= now by {}
        lemma_own_markets(s, inst, now, grace_s);
        match e {
            LifeStep::Found { info, now: at } => {
                assert(run[run.len() - 1] == e);
                if is_taken(s, info, at) {
                    let m = market_from(info, at);
                    assert(s.push(m).drop_last() =~= s);
                    let one = seq![m];
                    assert(one.drop_last() =~= Seq::<MarketV>::empty());
                    assert(one.drop_last().filter(p) =~= Seq::<MarketV>::empty());
                    assert(one.last() == m);
                    if p(m) {
                        assert(o.len() == 0);
                        assert(of_instrument(one, inst) =~= one);
                        assert(more =~= seq![f(m)]);
                        assert(t.len() == 0) by {
                            if t.len() > 0 {
                                assert(t[t.len() - 1].1 <= now);
                            }
                        }
                        assert(all =~= seq![f(m)]);
                        assert(of_instrument(lived(run, grace_s), inst) =~= seq![m]);
                    } else {
                        assert(of_instrument(one, inst) =~= Seq::<MarketV>::empty());
                        assert(all =~= t);
                        assert(of_instrument(lived(run, grace_s), inst) =~= o);
                    }
                } else {
                    assert(of_instrument(pub_s, inst) =~= Seq::<MarketV>::empty());
                    assert(all =~= t);
                }
            },
            LifeStep::Tick { now: at } => {
                lemma_own_markets(advanced(s, at), inst, at, grace_s);
                let a = advanced(o, at);
                assert(of_instrument(lived(run, grace_s), inst) == retained(a, at, grace_s));
                assert(of_instrument(pub_s, inst) == moved(o, at));
                if o.len() == 0 {
                    assert(moved(o, at) =~= Seq::<MarketV>::empty());
                    assert(a =~= Seq::<MarketV>::empty());
                    assert(all =~= t);
                } else {
                    let m = o[0];
                    let m2 = MarketV { phase: phase_in(m, at), ..m };
                    assert(o.drop_last() =~= Seq::<MarketV>::empty());
                    assert(a.drop_last() =~= Seq::<MarketV>::empty());
                    assert(a.last() == m2);
                    assert(retained(a.drop_last(), at, grace_s) =~= Seq::<MarketV>::empty());
                    assert(moved(o.drop_last(), at) =~= Seq::<MarketV>::empty());
                    if m2.phase != m.phase {
                        assert(moved(o, at) =~= seq![m2]);
                        assert(more =~= seq![f(m2)]);
                        assert(all =~= t.push(f(m2)));
                        assert(all[all.len() - 2] == t[t.len() - 1]);
                        assert(t[t.len() - 1].1 <= now);
                    } else {
                        assert(moved(o, at) =~= Seq::<MarketV>::empty());
                        assert(all =~= t);
                    }
                }
            },
        }
    }
}

/// Over any run of lookups and ticks whose clock never goes back, the statuses published of
/// an instrument are its life, or the beginning of it: Upcoming or Live first, then Live and
/// Expired in their order, each once and none passed over, and none before its time.
pub proof fn law_statuses_follow_a_life(
    run: Seq<LifeStep>,
    grace_s: i64,
    inst: Seq<char>,
    slug: Seq<char>,
    start_ns: i64,
    expiry_ns: i64,
)
    requires
        clock_holds(run),
        one_market(run, inst, slug, start_ns, expiry_ns),
    ensures
        is_life(told(run, grace_s, inst), start_ns, expiry_ns),
        told(run, grace_s, inst).len() <= 3,
{
    lemma_life(run, grace_s, inst, slug, start_ns, expiry_ns);
    let t = told(run, grace_s, inst);
    if t.len() > 3 {
        assert(comes_next(t[0].0, t[1].0));
        assert(comes_next(t[1].0, t[2].0));
        assert(comes_next(t[2].0, t[3].0));
    }
}

/// A market's two tokens are two of its list, that of the first outcome that pays on a rise
/// and the other; it runs for the length of its window.
pub proof fn law_markets_have_two_sides(m: JsonV, slug: Seq<char>, start_sec: i64, window_sec: i64)
    requires
        0 <= start_sec <= 1_000_000_000,
        0 < window_sec <= 1_000_000_000,
    ensures
        info_of(m, slug, start_sec, window_sec) matches Some(i) ==> {
            let tokens = list_at(m.field("clobTokenIds"@));
            let outcomes = list_at(m.field("outcomes"@));
            &&& tokens.len() >= 2
            &&& cid_of(m) == Some(i.cid) && i.slug == slug
            &&& i.start_ns == start_sec * 1_000_000_000
            &&& i.expiry_ns == i.start_ns + window_sec * 1_000_000_000
            &&& outcomes.len() > 0 && is_up(outcomes[0]) ==> i.up_token == tokens[0]
                && i.down_token == tokens[1]
            &&& outcomes.len() == 2 && !is_up(outcomes[0]) && is_up(outcomes[1]) ==> i.up_token
                == tokens[1] && i.down_token == tokens[0]
            &&& outcomes.len() == 2 && !is_up(outcomes[0]) && is_up(outcomes[1]) ==> i.up_inst
                == "polymarket."@ + i.cid + "."@ + text::uppered(outcomes[1]) && i.down_inst
                == "polymarket."@ + i.cid + "."@ + text::uppered(outcomes[0])
            &&& outcomes.len() == 2 && is_up(outcomes[0]) ==> i.up_inst == "polymarket."@ + i.cid
                + "."@ + text::uppered(outcomes[0]) && i.down_inst == "polymarket."@ + i.cid + "."@
                + text::uppered(outcomes[1])
            &&& json::amount_at(m.field("orderMinSize"@)) == i.min_order_size
            &&& json::amount_at(m.field("orderPriceMinTickSize"@)) == i.tick_size
        },
{
    let outcomes = list_at(m.field("outcomes"@));
    if outcomes.len() == 2 {
        assert(up_from(outcomes, 1) == if is_up(outcomes[1]) {
            1int
        } else {
            up_from(outcomes, 2)
        });
    }
}

/// What is next to be done about a market: it opens, it closes, and it goes once its grace is
/// up; it is taken up only while it is not over.
pub proof fn law_boundaries_of_a_market(m: MarketV, s: Seq<MarketV>, i: InfoV, now: i64, grace_s: i64)
    requires
        i.start_ns <= i.expiry_ns,
    ensures
        m.phase == Phase::Upcoming ==> boundary(m, grace_s) == m.info.start_ns,
        m.phase == Phase::Live ==> boundary(m, grace_s) == m.info.expiry_ns,
        m.phase == Phase::Expired ==> boundary(m, grace_s) == m.info.expiry_ns + grace_s
            * 1_000_000_000,
        is_taken(s, i, now) <==> !is_known(s, i.slug) && now < i.expiry_ns,
        market_from(i, now).phase == Phase::Live <==> i.start_ns <= now && now < i.expiry_ns,
        m.phase == Phase::Expired && now >= m.info.expiry_ns + grace_s * 1_000_000_000 ==> retained(
            s.push(m),
            now,
            grace_s,
        ) == retained(s, now, grace_s),
        m.phase != Phase::Expired || now < m.info.expiry_ns + grace_s * 1_000_000_000 ==> retained(
            s.push(m),
            now,
            grace_s,
        ) == retained(s, now, grace_s).push(m),
{
    assert(s.push(m).drop_last() =~= s);
}

/// What the catalog says of a market: its rising side, its times, its status by its phase and
/// its own economics.
pub proof fn law_entries_say_what_a_market_is(e: MarketMeta, m: MarketV, kind: Seq<char>)
    requires
        is_entry(e, m, kind),
    ensures
        e.instrument@ == m.info.up_inst,
        e.kind@ == kind,
        e.start_ts_ns == Some(m.info.start_ns),
        e.expiry_ts_ns == Some(m.info.expiry_ns),
        m.phase == Phase::Live <==> e.status == MarketStatus::Live,
        m.phase == Phase::Upcoming <==> e.status == MarketStatus::Upcoming,
        m.phase == Phase::Expired <==> e.status == MarketStatus::Expired,
        e.min_order_size == m.info.min_order_size,
        e.tick_size == m.info.tick_size,
        e.fee_rate == m.info.fee_rate,
{
}

/// Both tokens of a market that is not over are wanted, each under its own instrument; of one
/// that is over, none.
pub proof fn law_both_tokens_are_wanted(s: Seq<MarketV>, m: MarketV)
    ensures
        m.phase == Phase::Expired ==> wanted(s.push(m)) == wanted(s),
        m.phase != Phase::Expired ==> wanted(s.push(m)) == put_token(
            put_token(
                wanted(s),
                TokenV { token: m.info.up_token, cid: m.info.cid, instrument: m.info.up_inst },
            ),
            TokenV { token: m.info.down_token, cid: m.info.cid, instrument: m.info.down_inst },
        ),
{
    assert(s.push(m).drop_last() =~= s);
}

} // verus!

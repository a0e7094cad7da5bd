//! What is recorded, and where: one directory for each stream, venue and day.
use vstd::prelude::*;
use crate::bus;
use crate::bus::parts_of;
use crate::datetime;
use crate::datetime::date_utc;
use crate::event::Event;
use crate::strmap::StrMap;
use crate::text;
use crate::text::{joined, same, split, starts_with};

verus! {

/// The recorder's settings.
#[derive(Debug)]
pub struct RecorderCfg {
    pub enabled: bool,
    /// The directory under which the partitions stand.
    pub dir: String,
    /// The topics to record, as a pattern.
    pub pattern: String,
    /// At most one event for each key in this time; 0 keeps every event.
    pub sample_interval_ms: u64,
    /// What the key is: "instrument" or "topic".
    pub sample_key: String,
    /// Events whose topic begins with one of these are always kept.
    pub always_keep: Vec<String>,
}

impl Default for RecorderCfg {
    fn default() -> (r: RecorderCfg)
        ensures
            !r.enabled,
            r.dir@ == "data/events"@,
            r.pattern@ == "#"@,
            r.sample_interval_ms == 0,
            r.sample_key@ == "instrument"@,
            text::views(r.always_keep@) == seq![
                "signal."@,
                "exec."@,
                "latency."@,
                "market.polymarket.catalog"@,
            ],
    {
        let mut always_keep: Vec<String> = Vec::new();
        always_keep.push("signal.".to_string());
        always_keep.push("exec.".to_string());
        always_keep.push("latency.".to_string());
        always_keep.push("market.polymarket.catalog".to_string());
        assert(text::views(always_keep@) =~= seq![
            "signal."@,
            "exec."@,
            "latency."@,
            "market.polymarket.catalog"@,
        ]);
        RecorderCfg {
            enabled: false,
            dir: "data/events".to_string(),
            pattern: "#".to_string(),
            sample_interval_ms: 0,
            sample_key: "instrument".to_string(),
            always_keep,
        }
    }
}

/// The instrument of an event: for a latency sample its name.
pub fn instrument_of(ev: &Event) -> (r: &str)
    ensures
        r@ == bus::key_parts(ev.payload).1,
{
    let (_, t) = parts_of(ev);
    t.as_str()
}

/// The stream and the venue of an event: the last and the second part of a market topic,
/// else the first part of the topic and the event's source.
pub open spec fn partition(topic: Seq<char>, source: Seq<char>) -> (Seq<char>, Seq<char>) {
    let parts = text::split_on(topic, '.');
    if parts[0] == "market"@ {
        (
            parts.last(),
            if parts.len() > 1 {
                parts[1]
            } else {
                source
            },
        )
    } else {
        (parts[0], source)
    }
}

proof fn lemma_split_is_something(s: Seq<char>, c: char)
    ensures
        text::split_on(s, c).len() > 0,
    decreases s.len(),
{
    reveal_with_fuel(text::split_on, 2);
}

/// The stream and the venue of an event.
pub fn stream_venue(ev: &Event) -> (r: (String, String))
    ensures
        (r.0@, r.1@) == partition(ev.topic@, ev.source@),
{
    let parts = split(ev.topic.as_str(), '.');
    let ghost pv = text::split_on(ev.topic@, '.');
    proof {
        lemma_split_is_something(ev.topic@, '.');
        assert(pv == text::views(parts@));
        assert(pv[0] == parts@[0]@);
        assert(pv.last() == parts@[parts@.len() - 1]@);
    }
    if same(parts[0].as_str(), "market") {
        let venue: String = if parts.len() > 1 {
            parts[1].clone()
        } else {
            ev.source.to_string()
        };
        (parts[parts.len() - 1].clone(), venue)
    } else {
        (parts[0].clone(), ev.source.to_string())
    }
}

/// Where an event is recorded.
pub open spec fn directory(
    base: Seq<char>,
    topic: Seq<char>,
    source: Seq<char>,
    day: Seq<char>,
) -> Seq<char> {
    let (stream, venue) = partition(topic, source);
    base + "/stream="@ + stream + "/venue="@ + venue + "/date="@ + day
}

/// The directory in which an event is recorded.
pub fn dir_of(base: &str, ev: &Event) -> (r: String)
    ensures
        exists|day: Seq<char>| #[trigger]
            datetime::is_day_text(day, ev.ts_ns) && r@ == directory(
                base@,
                ev.topic@,
                ev.source@,
                day,
            ),
{
    let (stream, venue) = stream_venue(ev);
    let day = date_utc(ev.ts_ns);
    let a = joined(joined(base, "/stream=").as_str(), stream.as_str());
    let b = joined(joined(a.as_str(), "/venue=").as_str(), venue.as_str());
    let c = joined(joined(b.as_str(), "/date=").as_str(), day.as_str());
    assert(datetime::is_day_text(day@, ev.ts_ns));
    c
}

/// Whether a topic begins with one of these.
pub open spec fn is_kept(keep: Seq<Seq<char>>, topic: Seq<char>) -> bool {
    exists|i: int| 0 <= i < keep.len() && text::has_prefix(topic, #[trigger] keep[i])
}

fn always_kept(keep: &Vec<String>, topic: &str) -> (r: bool)
    ensures
        r == is_kept(text::views(keep@), topic@),
{
    let ghost kv = text::views(keep@);
    let mut i: usize = 0;
    while i < keep.len()
        invariant
            kv == text::views(keep@),
            i <= keep@.len(),
            forall|j: int| 0 <= j < i ==> !text::has_prefix(topic@, #[trigger] kv[j]),
        decreases keep@.len() - i,
    {
        assert(kv[i as int] == keep@[i as int]@);
        if starts_with(topic, keep[i].as_str()) {
            return true;
        }
        i = i + 1;
    }
    false
}

/// The key by which an event is sampled.
pub open spec fn sample_key(cfg: RecorderCfg, ev: Event) -> Seq<char> {
    if cfg.sample_key@ == "topic"@ {
        ev.topic@
    } else {
        bus::key_parts(ev.payload).1
    }
}

/// Whether events of this topic are sampled at all.
pub open spec fn is_sampled(cfg: RecorderCfg, topic: Seq<char>) -> bool {
    cfg.sample_interval_ms != 0 && !is_kept(text::views(cfg.always_keep@), topic)
}

/// Whether an event at `t` of this key comes too soon.
pub open spec fn too_soon(
    last: Map<Seq<char>, i64>,
    key: Seq<char>,
    t: i64,
    interval_ms: u64,
) -> bool {
    last.contains_key(key) && t - last[key] < interval_ms * 1_000_000
}

/// The instants of the last events that were kept, by key.
pub struct Sampler {
    last: StrMap<i64>,
}

impl View for Sampler {
    type V = Map<Seq<char>, i64>;

    closed spec fn view(&self) -> Map<Seq<char>, i64> {
        self.last@
    }
}

impl Sampler {
    /// Nothing kept yet.
    pub fn new() -> (r: Sampler)
        ensures
            r@ == Map::<Seq<char>, i64>::empty(),
    {
        Sampler { last: StrMap::new() }
    }

    /// Whether to keep an event.
    pub fn keep(&mut self, cfg: &RecorderCfg, ev: &Event) -> (r: bool)
        ensures
            ({
                let key = sample_key(*cfg, *ev);
                let soon = too_soon(old(self)@, key, ev.ts_ns, cfg.sample_interval_ms);
                if is_sampled(*cfg, ev.topic@) {
                    &&& r == !soon
                    &&& final(self)@ == (if soon {
                        old(self)@
                    } else {
                        old(self)@.insert(key, ev.ts_ns)
                    })
                } else {
                    r && final(self)@ == old(self)@
                }
            }),
    {
        if cfg.sample_interval_ms == 0 || always_kept(&cfg.always_keep, ev.topic.as_str()) {
            return true;
        }
        let key = if same(cfg.sample_key.as_str(), "topic") {
            ev.topic.clone()
        } else {
            instrument_of(ev).to_string()
        };
        let interval: i128 = cfg.sample_interval_ms as i128 * 1_000_000;
        if let Some(t) = self.last.get(key.as_str()) {
            if (ev.ts_ns as i128 - *t as i128) < interval {
                return false;
            }
        }
        self.last.insert(key, ev.ts_ns);
        true
    }
}

/// What is kept after one run of events, taken at these instants under one key.
pub open spec fn kept_of(last: Map<Seq<char>, i64>, key: Seq<char>, ts: Seq<i64>, interval_ms: u64) -> (
    Map<Seq<char>, i64>,
    Seq<i64>,
)
    decreases ts.len(),
{
    if ts.len() == 0 {
        (last, Seq::empty())
    } else {
        let (m, k) = kept_of(last, key, ts.drop_last(), interval_ms);
        if too_soon(m, key, ts.last(), interval_ms) {
            (m, k)
        } else {
            (m.insert(key, ts.last()), k.push(ts.last()))
        }
    }
}

/// Of one key, two events that are kept one after the other are an interval apart.
pub proof fn law_kept_events_are_apart(
    last: Map<Seq<char>, i64>,
    key: Seq<char>,
    ts: Seq<i64>,
    interval_ms: u64,
    i: int,
)
    requires
        0 <= i < kept_of(last, key, ts, interval_ms).1.len() - 1,
    ensures
        kept_of(last, key, ts, interval_ms).1[i + 1] - kept_of(last, key, ts, interval_ms).1[i]
            >= interval_ms * 1_000_000,
    decreases ts.len(),
{
    if ts.len() > 0 {
        let d = ts.drop_last();
        lemma_last_kept(last, key, d, interval_ms);
        if i < kept_of(last, key, d, interval_ms).1.len() - 1 {
            law_kept_events_are_apart(last, key, d, interval_ms, i);
        }
    }
}

proof fn lemma_last_kept(last: Map<Seq<char>, i64>, key: Seq<char>, ts: Seq<i64>, interval_ms: u64)
    ensures
        ({
            let (m, k) = kept_of(last, key, ts, interval_ms);
            k.len() > 0 ==> m.contains_key(key) && m[key] == k.last()
        }),
    decreases ts.len(),
{
    if ts.len() > 0 {
        lemma_last_kept(last, key, ts.drop_last(), interval_ms);
    }
}

/// Where an event is recorded: a market event under the last part of its topic and its venue,
/// which is the second; any other under the first part and its source.
pub proof fn law_events_are_filed_by_topic(topic: Seq<char>, source: Seq<char>)
    ensures
        ({
            let parts = text::split_on(topic, '.');
            let p = partition(topic, source);
            &&& parts[0] == "market"@ && parts.len() >= 2 ==> p.0 == parts[parts.len() - 1] && p.1
                == parts[1]
            &&& parts[0] != "market"@ ==> p.0 == parts[0] && p.1 == source
        }),
{
}

/// Of one key, the first event is kept, and then each that is an interval or more after the
/// last one kept; what has to be kept is never sampled.
pub proof fn law_when_an_event_is_kept(
    last: Map<Seq<char>, i64>,
    key: Seq<char>,
    t: i64,
    interval_ms: u64,
    cfg: RecorderCfg,
    topic: Seq<char>,
    i: int,
)
    ensures
        !last.contains_key(key) ==> !too_soon(last, key, t, interval_ms),
        last.contains_key(key) && t - last[key] >= interval_ms * 1_000_000 ==> !too_soon(
            last,
            key,
            t,
            interval_ms,
        ),
        last.contains_key(key) && t - last[key] < interval_ms * 1_000_000 ==> too_soon(
            last,
            key,
            t,
            interval_ms,
        ),
        cfg.sample_interval_ms == 0 ==> !is_sampled(cfg, topic),
        0 <= i < cfg.always_keep@.len() && text::has_prefix(topic, cfg.always_keep@[i]@)
            ==> !is_sampled(cfg, topic),
        cfg.sample_interval_ms != 0 && cfg.always_keep@.len() == 0 ==> is_sampled(cfg, topic),
{
    if 0 <= i < cfg.always_keep@.len() && text::has_prefix(topic, cfg.always_keep@[i]@) {
        assert(text::views(cfg.always_keep@)[i] == cfg.always_keep@[i]@);
    }
}

} // verus!

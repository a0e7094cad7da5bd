//! Features rebuilt only to be looked at: nothing is ever traded on them.
use vstd::prelude::*;
use crate::event::{Event, Payload};
use crate::processor::fair_ride;
use crate::processor::fair_ride::read_top;
use crate::processor::features;
use crate::processor::features::{FeatureState, Ratio};
use crate::processor::features::FeatureV;
use crate::text;
use crate::text::{joined, same};

verus! {

/// The probe's settings.
#[derive(Debug)]
pub struct FeatureProbeCfg {
    pub enabled: bool,
    /// The model whose features are looked at; not read where `extras` names them.
    pub model_path: String,
    pub extras: Vec<String>,
    pub reference: String,
    pub basis_reference: String,
    /// The instrument of the deep book; empty where there is none.
    pub depth_reference: String,
    pub flush_s: u64,
}

impl Default for FeatureProbeCfg {
    fn default() -> (r: FeatureProbeCfg)
        ensures
            !r.enabled,
            r.model_path@ == ""@,
            r.extras@.len() == 0,
            r.reference@ == "binance.usdt_perp.BTCUSDT"@,
            r.basis_reference@ == "coinbase.BTC"@,
            r.depth_reference@ == ""@,
            r.flush_s == 60,
    {
        FeatureProbeCfg {
            enabled: false,
            model_path: "".to_string(),
            extras: Vec::new(),
            reference: "binance.usdt_perp.BTCUSDT".to_string(),
            basis_reference: "coinbase.BTC".to_string(),
            depth_reference: "".to_string(),
            flush_s: 60,
        }
    }
}

/// The features after an event: books of the deep instrument are left to the deep book, those
/// of the two references and the volume of the first are taken in.
pub open spec fn heard(f: FeatureV, cfg: FeatureProbeCfg, ev: Event) -> FeatureV {
    match ev.payload {
        Payload::Book(b) => if cfg.depth_reference@.len() > 0 && b.instrument@
            == cfg.depth_reference@ {
            f
        } else if b.instrument@ == cfg.reference@ {
            match fair_ride::top_of(b.bids@, b.asks@) {
                Some((mid, bq, aq)) => features::after_perp(f, b.recv_ts_ns, mid, bq, aq),
                None => f,
            }
        } else if b.instrument@ == cfg.basis_reference@ {
            match fair_ride::top_of(b.bids@, b.asks@) {
                Some((mid, _, _)) => features::after_cb(f, b.recv_ts_ns, mid),
                None => f,
            }
        } else {
            f
        },
        Payload::Trade(t) => if t.instrument@ == cfg.reference@ + ".vol"@ {
            FeatureV { volume: features::volume_kept(f.volume, t.recv_ts_ns, t.qty), ..f }
        } else {
            f
        },
        _ => f,
    }
}

/// Whether the features are to be shown again: at most once a second.
pub open spec fn is_due(last: i64, now: i64, flush_s: u64) -> bool {
    now - last >= (if flush_s > 1 {
        flush_s as int
    } else {
        1
    }) * 1_000_000_000
}

/// What a look at the features shows.
#[derive(Debug)]
pub enum Shown {
    /// Nothing is due.
    Nothing,
    /// They cannot be told yet.
    NotReady,
    Values(Vec<Ratio>),
}

/// The features that are looked at.
pub struct Probe {
    cfg: FeatureProbeCfg,
    feats: FeatureState,
    last: i64,
}

impl Probe {
    /// Whether what the features are rebuilt from is sound.
    pub closed spec fn wf(&self) -> bool {
        self.feats.wf()
    }

    /// The settings.
    pub closed spec fn cfg(&self) -> FeatureProbeCfg {
        self.cfg
    }

    /// The features.
    pub closed spec fn feats(&self) -> FeatureV {
        self.feats@
    }

    /// When they were last shown.
    pub closed spec fn last(&self) -> i64 {
        self.last
    }

    /// Nothing seen yet.
    pub fn new(cfg: FeatureProbeCfg, extras: Vec<String>) -> (r: Probe)
        ensures
            r.wf(),
            r.cfg() == cfg,
            r.feats() == features::nothing_seen(text::views(extras@)),
            r.last() == 0,
    {
        Probe { cfg, feats: FeatureState::new(extras), last: 0 }
    }

    /// Takes an event in, and shows the features where they are due.
    pub fn on_event(&mut self, ev: &Event) -> (r: Shown)
        requires
            old(self).wf(),
        ensures
            final(self).wf(),
            final(self).cfg() == old(self).cfg(),
            final(self).feats() == heard(old(self).feats(), old(self).cfg(), *ev),
            ({
                let due = is_due(old(self).last(), ev.ts_ns, old(self).cfg().flush_s);
                let f = features::all_features(final(self).feats(), ev.ts_ns);
                &&& final(self).last() == (if due {
                    ev.ts_ns
                } else {
                    old(self).last()
                })
                &&& match r {
                    Shown::Nothing => !due,
                    Shown::NotReady => due && f is None,
                    Shown::Values(v) => due && f == Some(v@),
                }
            }),
    {
        match &ev.payload {
            Payload::Book(b) => {
                if self.cfg.depth_reference.as_str().unicode_len() > 0 && same(
                    b.instrument.as_str(),
                    self.cfg.depth_reference.as_str(),
                ) {
                } else if same(b.instrument.as_str(), self.cfg.reference.as_str()) {
                    if let Some((mid, bq, aq)) = read_top(&b.bids, &b.asks) {
                        self.feats.on_perp(b.recv_ts_ns, mid, bq, aq);
                    }
                } else if same(b.instrument.as_str(), self.cfg.basis_reference.as_str()) {
                    if let Some((mid, _, _)) = read_top(&b.bids, &b.asks) {
                        self.feats.on_cb(b.recv_ts_ns, mid);
                    }
                }
            },
            Payload::Trade(t) => {
                let vol = joined(self.cfg.reference.as_str(), ".vol");
                if same(t.instrument.as_str(), vol.as_str()) {
                    self.feats.on_perp_trade(t.recv_ts_ns, t.qty);
                }
            },
            _ => {},
        }
        let every: i128 = if self.cfg.flush_s > 1 {
            self.cfg.flush_s as i128
        } else {
            1
        };
        if (ev.ts_ns as i128 - self.last as i128) < every * 1_000_000_000 {
            return Shown::Nothing;
        }
        self.last = ev.ts_ns;
        match self.feats.feats(ev.ts_ns) {
            Some(f) => Shown::Values(f),
            None => Shown::NotReady,
        }
    }
}

} // verus!

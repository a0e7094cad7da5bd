//! Whether the parts of a frozen model fit together. A model's numbers are decimals and are
//! kept by the caller; what is checked here are their lengths.
use vstd::prelude::*;
use crate::processor::ob_feats;
use crate::processor::ob_feats::{legacy_places, net_kind, ObNetKind};
use crate::text;
use crate::text::same;

verus! {

/// How many extra features a surface reads at most.
pub const MAX_EXTRA: usize = 8;

/// How many bins the distribution model has.
pub const OB_NLOGIT: usize = 11;

/// The lengths in a layer: those of its rows of weights, and that of its bias.
#[derive(Debug)]
pub struct LayerShape {
    pub rows: Vec<usize>,
    pub bias: usize,
}

/// Why the parts of a model do not fit together.
#[derive(Clone, Copy, Debug, PartialEq, Eq, Structural)]
pub enum ShapeError {
    /// The model works in another way.
    Mode,
    /// It has another number of layers.
    Layers,
    /// Its first layer is not as wide as it says.
    Hidden,
    /// It reads too many extra features.
    Extras,
    /// It does not scale each input.
    Scales,
    /// It has another number of bins.
    Bins,
    /// It reads a column that is not known.
    Column,
    /// It has no members.
    Members,
    /// A layer is empty.
    Empty,
    /// A bias is not as long as its layer is wide.
    Bias,
    /// The rows of a layer differ in length.
    Ragged,
    /// The first layer takes another number of inputs.
    Input,
    /// The last layer gives another number of outputs.
    Output,
}

/// What is wrong with a layer, if anything: the first of these.
pub open spec fn layer_error(l: LayerShape) -> Option<ShapeError> {
    if l.rows@.len() == 0 {
        Some(ShapeError::Empty)
    } else if l.bias != l.rows@.len() {
        Some(ShapeError::Bias)
    } else if exists|i: int| 0 <= i < l.rows@.len() && #[trigger] l.rows@[i] != l.rows@[0] {
        Some(ShapeError::Ragged)
    } else {
        None
    }
}

/// What is wrong with the first layer that anything is wrong with.
pub open spec fn layers_error(s: Seq<LayerShape>) -> Option<ShapeError>
    decreases s.len(),
{
    if s.len() == 0 {
        None
    } else {
        match layers_error(s.drop_last()) {
            Some(e) => Some(e),
            None => layer_error(s.last()),
        }
    }
}

/// How many inputs the first layer takes; none where there are no layers.
pub open spec fn inputs(s: Seq<LayerShape>) -> Option<int> {
    if s.len() > 0 && s[0].rows@.len() > 0 {
        Some(s[0].rows@[0] as int)
    } else {
        None
    }
}

/// How many outputs the last layer gives; none where there are no layers.
pub open spec fn outputs(s: Seq<LayerShape>) -> Option<int> {
    if s.len() > 0 {
        Some(s.last().rows@.len() as int)
    } else {
        None
    }
}

/// What is wrong with a net of so many inputs and outputs.
pub open spec fn net_error(s: Seq<LayerShape>, n_in: int, n_out: int) -> Option<ShapeError> {
    match layers_error(s) {
        Some(e) => Some(e),
        None => if inputs(s) != Some(n_in) {
            Some(ShapeError::Input)
        } else if outputs(s) != Some(n_out) {
            Some(ShapeError::Output)
        } else {
            None
        },
    }
}

/// What a check says, as an error that may be missing.
pub open spec fn error_of<T>(r: Result<T, ShapeError>) -> Option<ShapeError> {
    match r {
        Ok(_) => None,
        Err(e) => Some(e),
    }
}

fn check_layer(l: &LayerShape) -> (r: Result<(), ShapeError>)
    ensures
        error_of(r) == layer_error(*l),
{
    if l.rows.len() == 0 {
        return Err(ShapeError::Empty);
    }
    if l.bias != l.rows.len() {
        return Err(ShapeError::Bias);
    }
    let mut i: usize = 0;
    while i < l.rows.len()
        invariant
            l.rows@.len() > 0,
            l.bias == l.rows@.len(),
            i <= l.rows@.len(),
            forall|j: int| 0 <= j < i ==> #[trigger] l.rows@[j] == l.rows@[0],
        decreases l.rows@.len() - i,
    {
        if l.rows[i] != l.rows[0] {
            assert(l.rows@[i as int] != l.rows@[0]);
            return Err(ShapeError::Ragged);
        }
        i = i + 1;
    }
    Ok(())
}

fn check_layers(s: &Vec<LayerShape>) -> (r: Result<(), ShapeError>)
    ensures
        error_of(r) == layers_error(s@),
{
    let mut i: usize = 0;
    assert(s@.take(0) =~= Seq::<LayerShape>::empty());
    while i < s.len()
        invariant
            i <= s@.len(),
            layers_error(s@.take(i as int)) is None,
        decreases s@.len() - i,
    {
        assert(s@.take(i + 1).drop_last() =~= s@.take(i as int));
        assert(s@.take(i + 1).last() == s@[i as int]);
        if let Err(e) = check_layer(&s[i]) {
            proof {
                lemma_first_error(s@, i + 1);
            }
            return Err(e);
        }
        i = i + 1;
    }
    assert(s@.take(s@.len() as int) =~= s@);
    Ok(())
}

proof fn lemma_first_error(s: Seq<LayerShape>, n: int)
    requires
        0 <= n <= s.len(),
        layers_error(s.take(n)) is Some,
    ensures
        layers_error(s) == layers_error(s.take(n)),
    decreases s.len() - n,
{
    if n < s.len() {
        assert(s.take(n + 1).drop_last() =~= s.take(n));
        lemma_first_error(s, n + 1);
    } else {
        assert(s.take(n) =~= s);
    }
}

fn check_net(s: &Vec<LayerShape>, n_in: usize, n_out: usize) -> (r: Result<(), ShapeError>)
    ensures
        error_of(r) == net_error(s@, n_in as int, n_out as int),
{
    if let Err(e) = check_layers(s) {
        return Err(e);
    }
    if s.len() == 0 {
        return Err(ShapeError::Input);
    }
    proof {
        assert(layers_error(s@.take(1)) is None) by {
            if layers_error(s@.take(1)) is Some {
                lemma_first_error(s@, 1);
            }
        }
        assert(s@.take(1).last() == s@[0]);
        assert(layer_error(s@[0]) is None);
    }
    if s[0].rows[0] != n_in {
        return Err(ShapeError::Input);
    }
    if s[s.len() - 1].rows.len() != n_out {
        return Err(ShapeError::Output);
    }
    Ok(())
}

/// What is wrong with a surface, if anything: the first of these.
pub open spec fn surface_error(
    mode: Seq<char>,
    hidden: int,
    n_extra: int,
    n_mu: int,
    n_sd: int,
    s: Seq<LayerShape>,
) -> Option<ShapeError> {
    if mode != "direct"@ {
        Some(ShapeError::Mode)
    } else if s.len() != 3 {
        Some(ShapeError::Layers)
    } else if s[0].bias != hidden {
        Some(ShapeError::Hidden)
    } else if n_extra > MAX_EXTRA {
        Some(ShapeError::Extras)
    } else if n_mu != n_extra || n_sd != n_extra {
        Some(ShapeError::Scales)
    } else if inputs(s) != Some(2 + n_extra) {
        Some(ShapeError::Input)
    } else {
        layers_error(s)
    }
}

/// Checks a fair-price surface: three layers, the first of which takes the price, the time and
/// the extra features.
pub fn check_surface(
    mode: &str,
    hidden: usize,
    n_extra: usize,
    n_mu: usize,
    n_sd: usize,
    s: &Vec<LayerShape>,
) -> (r: Result<(), ShapeError>)
    ensures
        error_of(r) == surface_error(
            mode@,
            hidden as int,
            n_extra as int,
            n_mu as int,
            n_sd as int,
            s@,
        ),
{
    if !same(mode, "direct") {
        return Err(ShapeError::Mode);
    }
    if s.len() != 3 {
        return Err(ShapeError::Layers);
    }
    if s[0].bias != hidden {
        return Err(ShapeError::Hidden);
    }
    if n_extra > MAX_EXTRA {
        return Err(ShapeError::Extras);
    }
    if n_mu != n_extra || n_sd != n_extra {
        return Err(ShapeError::Scales);
    }
    if s[0].rows.len() == 0 || s[0].rows[0] != 2 + n_extra {
        return Err(ShapeError::Input);
    }
    check_layers(s)
}

/// What is wrong with the first member that anything is wrong with.
pub open spec fn members_error(m: Seq<Vec<LayerShape>>, nf: int) -> Option<ShapeError>
    decreases m.len(),
{
    if m.len() == 0 {
        None
    } else {
        match members_error(m.drop_last(), nf) {
            Some(e) => Some(e),
            None => net_error(m.last()@, nf, 2),
        }
    }
}

/// What is wrong with an ensemble, if anything: the first of these.
pub open spec fn ensemble_error(nf: int, n_sd: int, m: Seq<Vec<LayerShape>>) -> Option<ShapeError> {
    if n_sd != nf {
        Some(ShapeError::Scales)
    } else if m.len() == 0 {
        Some(ShapeError::Members)
    } else {
        members_error(m, nf)
    }
}

proof fn lemma_first_member(m: Seq<Vec<LayerShape>>, nf: int, n: int)
    requires
        0 <= n <= m.len(),
        members_error(m.take(n), nf) is Some,
    ensures
        members_error(m, nf) == members_error(m.take(n), nf),
    decreases m.len() - n,
{
    if n < m.len() {
        assert(m.take(n + 1).drop_last() =~= m.take(n));
        lemma_first_member(m, nf, n + 1);
    } else {
        assert(m.take(n) =~= m);
    }
}

/// Checks the members of an exceedance model: each takes all features and gives the two
/// directions.
pub fn check_ensemble(nf: usize, n_sd: usize, m: &Vec<Vec<LayerShape>>) -> (r: Result<
    (),
    ShapeError,
>)
    ensures
        error_of(r) == ensemble_error(nf as int, n_sd as int, m@),
{
    if n_sd != nf {
        return Err(ShapeError::Scales);
    }
    if m.len() == 0 {
        return Err(ShapeError::Members);
    }
    let mut i: usize = 0;
    assert(m@.take(0) =~= Seq::<Vec<LayerShape>>::empty());
    while i < m.len()
        invariant
            m@.len() > 0,
            n_sd == nf,
            i <= m@.len(),
            members_error(m@.take(i as int), nf as int) is None,
        decreases m@.len() - i,
    {
        assert(m@.take(i + 1).drop_last() =~= m@.take(i as int));
        assert(m@.take(i + 1).last() == m@[i as int]);
        if let Err(e) = check_net(&m[i], nf, 2) {
            proof {
                lemma_first_member(m@, nf as int, i + 1);
            }
            return Err(e);
        }
        i = i + 1;
    }
    assert(m@.take(m@.len() as int) =~= m@);
    Ok(())
}

/// What a distribution model reads.
#[derive(Debug)]
pub struct Columns {
    pub kind: ObNetKind,
    /// The places of its columns among those of a bar; none for a model of the windows.
    pub places: Vec<usize>,
}

/// What is wrong with a distribution model, if anything: the first of these.
pub open spec fn distribution_error(
    k: int,
    cols: Seq<Seq<char>>,
    scales: (int, int, int, int),
    s: Seq<LayerShape>,
) -> Option<ShapeError> {
    let n = cols.len() as int;
    if k != OB_NLOGIT {
        Some(ShapeError::Bins)
    } else if scales != (n, n, n, n) {
        Some(ShapeError::Scales)
    } else if ob_feats::kind_of(cols) == ObNetKind::Legacy && ob_feats::places_of(cols) is None {
        Some(ShapeError::Column)
    } else {
        net_error(s, n, k)
    }
}

/// Checks a distribution model, and tells what it reads. `scales` are the lengths of its lower
/// and upper limits, means and deviations.
pub fn check_distribution(
    k: usize,
    cols: &Vec<String>,
    scales: (usize, usize, usize, usize),
    s: &Vec<LayerShape>,
) -> (r: Result<Columns, ShapeError>)
    ensures
        error_of(r) == distribution_error(
            k as int,
            text::views(cols@),
            (scales.0 as int, scales.1 as int, scales.2 as int, scales.3 as int),
            s@,
        ),
        r matches Ok(c) ==> c.kind == ob_feats::kind_of(text::views(cols@)) && (if c.kind
            == ObNetKind::Legacy {
            ob_feats::places_of(text::views(cols@)) == Some(
                Seq::new(c.places@.len(), |i: int| c.places@[i] as int),
            )
        } else {
            c.places@.len() == 0
        }),
{
    let n = cols.len();
    if k != OB_NLOGIT {
        return Err(ShapeError::Bins);
    }
    if scales.0 != n || scales.1 != n || scales.2 != n || scales.3 != n {
        return Err(ShapeError::Scales);
    }
    let kind = net_kind(cols);
    let places: Vec<usize> = if kind == ObNetKind::Legacy {
        match legacy_places(cols) {
            Some(v) => v,
            None => {
                return Err(ShapeError::Column);
            },
        }
    } else {
        Vec::new()
    };
    match check_net(s, n, k) {
        Ok(_) => Ok(Columns { kind, places }),
        Err(e) => Err(e),
    }
}

/// In a model that was accepted, each layer has as many rows as its bias is long, and all of
/// them are of one length.
pub proof fn law_accepted_layers_are_even(s: Seq<LayerShape>, i: int, j: int)
    requires
        layers_error(s) is None,
        0 <= i < s.len(),
        0 <= j < s[i].rows@.len(),
    ensures
        s[i].bias == s[i].rows@.len(),
        s[i].rows@[j] == s[i].rows@[0],
{
    if layers_error(s.take(i + 1)) is Some {
        lemma_first_error(s, i + 1);
    }
    assert(s.take(i + 1).last() == s[i]);
    assert(layer_error(s[i]) is None);
}

/// A layer is accepted exactly where it has rows, a bias for each, and all of one length; a
/// net where all its layers are, and it takes and gives so many numbers.
pub proof fn law_what_shapes_are_accepted(l: LayerShape, s: Seq<LayerShape>, n_in: int, n_out: int)
    ensures
        layer_error(l) is None <==> l.rows@.len() > 0 && l.bias == l.rows@.len() && forall|i: int|
            0 <= i < l.rows@.len() ==> #[trigger] l.rows@[i] == l.rows@[0],
        layers_error(s) is None ==> layers_error(s.push(l)) == layer_error(l),
        layers_error(s) is Some ==> layers_error(s.push(l)) == layers_error(s),
        net_error(s, n_in, n_out) is None ==> s.len() > 0 && s[0].rows@.len() > 0 && s[0].rows@[0]
            == n_in && s.last().rows@.len() == n_out && layers_error(s) is None,
        s.len() > 0 && s[0].rows@.len() > 0 && s[0].rows@[0] == n_in && s.last().rows@.len()
            == n_out && layers_error(s) is None ==> net_error(s, n_in, n_out) is None,
{
    assert(s.push(l).drop_last() =~= s);
}

/// What models are accepted: a surface has three layers, its hidden size, its scales and two
/// inputs more than its extras; an ensemble has members, each of so many inputs and two
/// outputs.
pub proof fn law_what_models_are_accepted(
    mode: Seq<char>,
    hidden: int,
    n_extra: int,
    n_mu: int,
    n_sd: int,
    s: Seq<LayerShape>,
    nf: int,
    m: Seq<Vec<LayerShape>>,
    x: Vec<LayerShape>,
)
    ensures
        surface_error(mode, hidden, n_extra, n_mu, n_sd, s) is None ==> mode == "direct"@ && s.len()
            == 3 && s[0].bias == hidden && n_mu == n_extra && n_sd == n_extra && s[0].rows@[0] == 2
            + n_extra && layers_error(s) is None,
        ensemble_error(nf, n_sd, m) is None ==> n_sd == nf && m.len() > 0 && members_error(m, nf)
            is None,
        members_error(m, nf) is None ==> members_error(m.push(x), nf) == net_error(x@, nf, 2),
        members_error(m, nf) is Some ==> members_error(m.push(x), nf) == members_error(m, nf),
{
    assert(m.push(x).drop_last() =~= m);
}

} // verus!

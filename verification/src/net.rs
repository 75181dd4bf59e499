//! The neural controller: a fixed-topology, fully connected feedforward
//! network over fixed-point signals.
//!
//! Signals are milli-units: a node activation lies in `[0, SCALE]`, standing
//! for `[0.0, 1.0]`.  The activation function is a bounded monotone
//! piecewise-linear ramp (a hard logistic): zero at or below `-2`, one at or
//! above `+2`, linear between.  Parameters are clamped into
//! `[-WEIGHT_LIMIT_MILLI, WEIGHT_LIMIT_MILLI]`, which keeps every weighted
//! sum far from overflow.  Mutation displaces each parameter independently
//! with a fixed probability by a bounded uniform amount; it never changes
//! the topology.  There is no training signal beyond mutation and selection.

use vstd::prelude::*;

use crate::arith::{spec_abs, spec_clamp, clamp_i64};
use crate::config::{
    INIT_WEIGHT_MILLI, MAX_LAYER_WIDTH, MUTATION_RATE_MILLI, MUTATION_VARIATION_MILLI,
    NUM_HIDDEN_NODES, NUM_INPUT_NODES, NUM_OUTPUT_NODES, SCALE, WEIGHT_LIMIT_MILLI,
};
use crate::rng::{rand_below, rand_signed};

verus! {

/// One fully connected layer: `weights[j]` are the incoming weights of
/// output node `j`, `biases[j]` its bias.
pub struct Layer {
    /// Incoming weights, one inner vector per output node.
    pub weights: Vec<Vec<i64>>,
    /// One bias per output node.
    pub biases: Vec<i64>,
}

/// A feedforward network: an ordered list of layer widths and the layers
/// connecting them.
pub struct Net {
    /// Layer widths, input first.
    pub widths: Vec<usize>,
    /// The connecting layers; `layers[l]` maps width `widths[l]` to
    /// `widths[l + 1]`.
    pub layers: Vec<Layer>,
}

/// The integer view of a sequence of fixed-point values.
pub open spec fn ints_of(s: Seq<i64>) -> Seq<int> {
    s.map_values(|a: i64| a as int)
}

/// The integer view of a list of activation vectors.
pub open spec fn ints_of_all(v: Seq<Vec<i64>>) -> Seq<Seq<int>> {
    v.map_values(|inner: Vec<i64>| ints_of(inner@))
}

/// The bounded monotone ramp activation (a hard logistic) over a
/// pre-activation in micro-units (milli times milli): `0` at or below
/// `-2.0`, `SCALE` (one) at or above `+2.0`, linear between.
pub open spec fn activate(z: int) -> int {
    if z <= -2_000_000 {
        0
    } else if z >= 2_000_000 {
        SCALE as int
    } else {
        (z + 2_000_000) / 4_000
    }
}

/// Dot product of equally long sequences.
pub open spec fn dot(w: Seq<int>, x: Seq<int>) -> int
    decreases w.len(),
{
    if w.len() == 0 || x.len() == 0 {
        0
    } else {
        dot(w.drop_last(), x.drop_last()) + w.last() * x.last()
    }
}

/// The activation of output node `j` of a layer on input `x`: the bias
/// (milli, scaled up to micro) plus the weighted sum of the milli inputs,
/// squashed by the ramp.
pub open spec fn node_out(layer: Layer, x: Seq<int>, j: int) -> int {
    activate(layer.biases@[j] * (SCALE as int) + dot(ints_of(layer.weights@[j]@), x))
}

/// The activation vector a layer produces on input `x`.
pub open spec fn layer_out(layer: Layer, x: Seq<int>) -> Seq<int> {
    Seq::new(layer.biases@.len(), |j: int| node_out(layer, x, j))
}

/// All activation vectors of a forward pass: the input first, then each
/// layer's output in order.
pub open spec fn forward(layers: Seq<Layer>, x: Seq<int>) -> Seq<Seq<int>>
    decreases layers.len(),
{
    if layers.len() == 0 {
        seq![x]
    } else {
        seq![x] + forward(layers.drop_first(), layer_out(layers.first(), x))
    }
}

/// A parameter is in the clamp range.
pub open spec fn param_ok(p: i64) -> bool {
    -WEIGHT_LIMIT_MILLI <= p <= WEIGHT_LIMIT_MILLI
}

/// A layer maps `in_w` nodes to `out_w` nodes with bounded parameters.
pub open spec fn layer_wf(layer: Layer, in_w: int, out_w: int) -> bool {
    &&& layer.biases@.len() == out_w
    &&& layer.weights@.len() == out_w
    &&& forall|j: int| 0 <= j < out_w ==> (#[trigger] layer.weights@[j])@.len() == in_w
    &&& forall|j: int| 0 <= j < out_w ==> param_ok(#[trigger] layer.biases@[j])
    &&& forall|j: int, i: int|
        0 <= j < out_w && 0 <= i < in_w ==> param_ok(#[trigger] layer.weights@[j]@[i])
}

/// A usable list of layer widths.
pub open spec fn valid_widths(w: Seq<usize>) -> bool {
    &&& w.len() >= 1
    &&& forall|l: int| 0 <= l < w.len() ==> 1 <= #[trigger] w[l] <= MAX_LAYER_WIDTH
}

/// Freshly initialized parameters: every weight and bias still inside the
/// symmetric initial range, as a just-seeded controller has them.
pub open spec fn params_fresh(n: Net) -> bool {
    &&& forall|l: int, j: int|
        0 <= l < n.layers@.len() && 0 <= j < n.layers@[l].biases@.len()
            ==> -INIT_WEIGHT_MILLI <= (#[trigger] n.layers@[l].biases@[j]) <= INIT_WEIGHT_MILLI
    &&& forall|l: int, j: int, i: int|
        0 <= l < n.layers@.len() && 0 <= j < n.layers@[l].weights@.len() && 0 <= i < n.layers@[
            l].weights@[j]@.len() ==> -INIT_WEIGHT_MILLI <= (#[trigger] n.layers@[l].weights@[
            j]@[i]) <= INIT_WEIGHT_MILLI
}

/// A normalized activation vector: every entry in `[0, SCALE]`.
pub open spec fn acts_ok(x: Seq<i64>) -> bool {
    forall|i: int| 0 <= i < x.len() ==> 0 <= #[trigger] x[i] <= SCALE
}

impl Net {
    /// The widths are usable and every layer connects its two widths with
    /// bounded parameters.
    pub open spec fn wf(&self) -> bool {
        &&& valid_widths(self.widths@)
        &&& self.layers@.len() + 1 == self.widths@.len()
        &&& forall|l: int|
            0 <= l < self.layers@.len() ==> layer_wf(
                #[trigger] self.layers@[l],
                self.widths@[l] as int,
                self.widths@[l + 1] as int,
            )
    }

    /// Two nets have the same layer-width topology.
    pub open spec fn same_topology(a: Net, b: Net) -> bool {
        a.widths@ == b.widths@
    }

    /// Two nets hold exactly the same parameters everywhere.
    pub open spec fn same_params(a: Net, b: Net) -> bool {
        &&& a.layers@.len() == b.layers@.len()
        &&& forall|l: int|
            0 <= l < a.layers@.len() ==> (#[trigger] a.layers@[l]).biases@ == b.layers@[
                l].biases@
        &&& forall|l: int|
            0 <= l < a.layers@.len() ==> ints_of_all((#[trigger] a.layers@[l]).weights@)
                == ints_of_all(b.layers@[l].weights@)
    }

    /// Every parameter of `b` lies within `d` of the matching one of `a`,
    /// and the shapes agree.
    pub open spec fn params_within(a: Net, b: Net, d: int) -> bool {
        &&& a.layers@.len() == b.layers@.len()
        &&& forall|l: int|
            0 <= l < a.layers@.len() ==> (#[trigger] a.layers@[l]).biases@.len() == b.layers@[
                l].biases@.len()
        &&& forall|l: int|
            0 <= l < a.layers@.len() ==> (#[trigger] a.layers@[l]).weights@.len() == b.layers@[
                l].weights@.len()
        &&& forall|l: int, j: int|
            0 <= l < a.layers@.len() && 0 <= j < a.layers@[l].weights@.len() ==> (
            #[trigger] a.layers@[l].weights@[j])@.len() == b.layers@[l].weights@[j]@.len()
        &&& forall|l: int, j: int|
            0 <= l < a.layers@.len() && 0 <= j < a.layers@[l].biases@.len() ==> spec_abs(
                (#[trigger] a.layers@[l].biases@[j]) - b.layers@[l].biases@[j],
            ) <= d
        &&& forall|l: int, j: int, i: int|
            0 <= l < a.layers@.len() && 0 <= j < a.layers@[l].weights@.len() && 0 <= i
                < a.layers@[l].weights@[j]@.len() ==> spec_abs(
                (#[trigger] a.layers@[l].weights@[j]@[i]) - b.layers@[l].weights@[j]@[i],
            ) <= d
    }
}

/// The standard topology: three inputs, one hidden layer, four outputs.
pub fn standard_widths() -> (r: Vec<usize>)
    ensures
        valid_widths(r@),
        r@.len() == 3,
        r@[0] == NUM_INPUT_NODES,
        r@[1] == NUM_HIDDEN_NODES,
        r@[2] == NUM_OUTPUT_NODES,
{
    let mut r: Vec<usize> = Vec::new();
    r.push(NUM_INPUT_NODES);
    r.push(NUM_HIDDEN_NODES);
    r.push(NUM_OUTPUT_NODES);
    r
}

/// Copy a vector of fixed-point values.
fn copy_params(v: &Vec<i64>) -> (r: Vec<i64>)
    ensures
        r@ == v@,
{
    let mut r: Vec<i64> = Vec::new();
    let n = v.len();
    let mut i: usize = 0;
    while i < n
        invariant
            n == v@.len(),
            i <= n,
            r@ == v@.subrange(0, i as int),
        decreases n - i,
    {
        r.push(v[i]);
        proof {
            assert(r@ =~= v@.subrange(0, i + 1));
        }
        i = i + 1;
    }
    proof {
        assert(v@.subrange(0, n as int) =~= v@);
    }
    r
}

/// The ramp activation on a micro-unit pre-activation.
fn activate_exec(z: i64) -> (r: i64)
    requires
        -0x4000_0000_0000_0000 <= z <= 0x4000_0000_0000_0000,
    ensures
        r == activate(z as int),
        0 <= r <= SCALE,
{
    if z <= -2_000_000 {
        0
    } else if z >= 2_000_000 {
        SCALE
    } else {
        (z + 2_000_000) / 4_000
    }
}

/// One layer of the forward pass.
fn eval_layer(layer: &Layer, x: &Vec<i64>) -> (r: Vec<i64>)
    requires
        layer_wf(*layer, x@.len() as int, layer.biases@.len() as int),
        x@.len() <= MAX_LAYER_WIDTH,
        acts_ok(x@),
    ensures
        r@.len() == layer.biases@.len(),
        ints_of(r@) == layer_out(*layer, ints_of(x@)),
        acts_ok(r@),
{
    let out_w = layer.biases.len();
    let in_w = x.len();
    let mut r: Vec<i64> = Vec::new();
    let mut j: usize = 0;
    while j < out_w
        invariant
            layer_wf(*layer, x@.len() as int, layer.biases@.len() as int),
            x@.len() <= MAX_LAYER_WIDTH,
            acts_ok(x@),
            out_w == layer.biases@.len(),
            in_w == x@.len(),
            j <= out_w,
            r@.len() == j,
            acts_ok(r@),
            forall|k: int| 0 <= k < j ==> #[trigger] r@[k] == node_out(*layer, ints_of(x@), k),
        decreases out_w - j,
    {
        let w = &layer.weights[j];
        let mut acc: i64 = layer.biases[j] * SCALE;
        let mut i: usize = 0;
        while i < in_w
            invariant
                layer_wf(*layer, x@.len() as int, layer.biases@.len() as int),
                x@.len() <= MAX_LAYER_WIDTH,
                acts_ok(x@),
                in_w == x@.len(),
                j < layer.biases@.len(),
                w@ == layer.weights@[j as int]@,
                i <= in_w,
                acc == layer.biases@[j as int] * (SCALE as int) + dot(
                    ints_of(w@).subrange(0, i as int),
                    ints_of(x@).subrange(0, i as int),
                ),
                -(8_000_000 + i * 8_000_000) <= acc <= 8_000_000 + i * 8_000_000,
            decreases in_w - i,
        {
            let wi = w[i];
            let xi = x[i];
            assert(-8_000_000 <= wi * xi <= 8_000_000) by (nonlinear_arith)
                requires
                    -8_000 <= wi <= 8_000,
                    0 <= xi <= 1_000,
            ;
            let term = wi * xi;
            let ghost wints = ints_of(w@);
            let ghost xints = ints_of(x@);
            proof {
                assert(wints.subrange(0, i + 1).drop_last() =~= wints.subrange(0, i as int));
                assert(xints.subrange(0, i + 1).drop_last() =~= xints.subrange(0, i as int));
                assert(wints.subrange(0, i + 1).last() == wi as int);
                assert(xints.subrange(0, i + 1).last() == xi as int);
                assert(dot(wints.subrange(0, i + 1), xints.subrange(0, i + 1)) == dot(
                    wints.subrange(0, i as int),
                    xints.subrange(0, i as int),
                ) + wi * xi);
            }
            acc = acc + term;
            i = i + 1;
        }
        proof {
            assert(ints_of(w@).subrange(0, in_w as int) =~= ints_of(w@));
            assert(ints_of(x@).subrange(0, in_w as int) =~= ints_of(x@));
        }
        let out = activate_exec(acc);
        r.push(out);
        proof {
            assert(r@.last() == node_out(*layer, ints_of(x@), j as int));
        }
        j = j + 1;
    }
    proof {
        assert(ints_of(r@) =~= layer_out(*layer, ints_of(x@)));
    }
    r
}

/// A forward pass always yields one activation vector per width.
proof fn lemma_forward_len(layers: Seq<Layer>, x: Seq<int>)
    ensures
        forward(layers, x).len() == layers.len() + 1,
        forward(layers, x).first() == x,
    decreases layers.len(),
{
    if layers.len() > 0 {
        lemma_forward_len(layers.drop_first(), layer_out(layers.first(), x));
    }
}

/// Extending a network by one layer appends that layer's output to the
/// forward pass.
proof fn lemma_forward_snoc(layers: Seq<Layer>, a: Layer, x: Seq<int>)
    ensures
        forward(layers.push(a), x) == forward(layers, x).push(
            layer_out(a, forward(layers, x).last()),
        ),
    decreases layers.len(),
{
    reveal_with_fuel(forward, 3);
    lemma_forward_len(layers, x);
    if layers.len() == 0 {
        assert(layers.push(a).drop_first() =~= Seq::<Layer>::empty());
        assert(layers.push(a).first() == a);
        assert(forward(layers.push(a), x) =~= forward(layers, x).push(
            layer_out(a, forward(layers, x).last()),
        ));
    } else {
        let y = layer_out(layers.first(), x);
        let rest = layers.drop_first();
        let f = forward(rest, y);
        lemma_forward_snoc(rest, a, y);
        lemma_forward_len(rest, y);
        let e = layer_out(a, f.last());
        assert(layers.push(a).drop_first() =~= rest.push(a));
        assert(layers.push(a).first() == layers.first());
        assert(forward(layers.push(a), x) == seq![x] + forward(rest.push(a), y));
        assert(forward(rest.push(a), y) == f.push(e));
        assert(forward(layers, x) == seq![x] + f);
        assert(forward(layers, x).last() == f.last());
        assert(layer_out(a, forward(layers, x).last()) == e);
        assert(seq![x] + f.push(e) =~= (seq![x] + f).push(e));
        assert(forward(layers.push(a), x) == forward(layers, x).push(e));
    }
}

impl Net {
    /// Run the controller: every layer's activation vector is returned,
    /// input first, so a caller may also inspect hidden-layer activity.
    #[verifier::rlimit(60)]
    #[verifier::spinoff_prover]
    pub fn predict(&self, input: &Vec<i64>) -> (r: Vec<Vec<i64>>)
        requires
            self.wf(),
            input@.len() == self.widths@[0],
            acts_ok(input@),
        ensures
            r@.len() == self.widths@.len(),
            ints_of_all(r@) == forward(self.layers@, ints_of(input@)),
            forall|l: int| 0 <= l < r@.len() ==> (#[trigger] r@[l])@.len() == self.widths@[l],
            forall|l: int| 0 <= l < r@.len() ==> acts_ok((#[trigger] r@[l])@),
    {
        let depth = self.layers.len();
        let mut acts: Vec<Vec<i64>> = Vec::new();
        let mut cur: Vec<i64> = copy_params(input);
        let mut l: usize = 0;
        proof {
            assert(self.layers@.subrange(0, 0) =~= Seq::<Layer>::empty());
            assert(ints_of_all(acts@).push(ints_of(cur@)) =~= forward(
                self.layers@.subrange(0, 0),
                ints_of(input@),
            ));
        }
        while l < depth
            invariant
                self.wf(),
                acts_ok(input@),
                input@.len() == self.widths@[0],
                depth == self.layers@.len(),
                l <= depth,
                acts@.len() == l,
                cur@.len() == self.widths@[l as int],
                acts_ok(cur@),
                ints_of_all(acts@).push(ints_of(cur@)) == forward(
                    self.layers@.subrange(0, l as int),
                    ints_of(input@),
                ),
                forall|k: int| 0 <= k < l ==> (#[trigger] acts@[k])@.len() == self.widths@[k],
                forall|k: int| 0 <= k < l ==> acts_ok((#[trigger] acts@[k])@),
            decreases depth - l,
        {
            let layer = &self.layers[l];
            let next = eval_layer(layer, &cur);
            let ghost prefix = self.layers@.subrange(0, l as int);
            proof {
                lemma_forward_snoc(prefix, self.layers@[l as int], ints_of(input@));
                assert(prefix.push(self.layers@[l as int]) =~= self.layers@.subrange(0, l + 1));
                lemma_forward_len(prefix, ints_of(input@));
                assert(forward(prefix, ints_of(input@)).last() == ints_of(cur@));
            }
            acts.push(cur);
            cur = next;
            proof {
                assert(ints_of_all(acts@).push(ints_of(cur@)) =~= forward(
                    self.layers@.subrange(0, l + 1),
                    ints_of(input@),
                ));
            }
            l = l + 1;
        }
        acts.push(cur);
        proof {
            assert(self.layers@.subrange(0, depth as int) =~= self.layers@);
            assert(ints_of_all(acts@) =~= forward(self.layers@, ints_of(input@)));
        }
        acts
    }

    /// A freshly initialized network of the given topology, every parameter
    /// drawn uniformly from the symmetric initial range.
    pub fn new(widths: Vec<usize>) -> (r: Net)
        requires
            valid_widths(widths@),
        ensures
            r.wf(),
            r.widths@ == widths@,
            params_fresh(r),
    {
        let depth = widths.len() - 1;
        let mut layers: Vec<Layer> = Vec::new();
        let mut l: usize = 0;
        while l < depth
            invariant
                valid_widths(widths@),
                depth == widths@.len() - 1,
                l <= depth,
                layers@.len() == l,
                forall|k: int|
                    0 <= k < l ==> layer_wf(
                        #[trigger] layers@[k],
                        widths@[k] as int,
                        widths@[k + 1] as int,
                    ),
                forall|k: int, j: int|
                    0 <= k < l && 0 <= j < layers@[k].biases@.len() ==> -INIT_WEIGHT_MILLI <= (
                    #[trigger] layers@[k].biases@[j]) <= INIT_WEIGHT_MILLI,
                forall|k: int, j: int, i: int|
                    0 <= k < l && 0 <= j < layers@[k].weights@.len() && 0 <= i < layers@[
                        k].weights@[j]@.len() ==> -INIT_WEIGHT_MILLI <= (#[trigger] layers@[
                        k].weights@[j]@[i]) <= INIT_WEIGHT_MILLI,
            decreases depth - l,
        {
            let layer = random_layer(widths[l], widths[l + 1]);
            layers.push(layer);
            l = l + 1;
        }
        Net { widths, layers }
    }

    /// A deep, independent copy: the offspring's parameters never alias the
    /// parent's.
    pub fn duplicate(&self) -> (r: Net)
        ensures
            r.widths@ == self.widths@,
            Net::same_params(*self, r),
            self.wf() ==> r.wf(),
    {
        let widths = copy_widths(&self.widths);
        let depth = self.layers.len();
        let mut layers: Vec<Layer> = Vec::new();
        let mut l: usize = 0;
        while l < depth
            invariant
                depth == self.layers@.len(),
                l <= depth,
                layers@.len() == l,
                forall|k: int|
                    0 <= k < l ==> (#[trigger] layers@[k]).biases@ == self.layers@[k].biases@,
                forall|k: int|
                    0 <= k < l ==> ints_of_all((#[trigger] layers@[k]).weights@) == ints_of_all(
                        self.layers@[k].weights@,
                    ),
                forall|k: int|
                    0 <= k < l ==> (#[trigger] layers@[k]).weights@.len() == self.layers@[
                        k].weights@.len(),
                forall|k: int, j: int|
                    0 <= k < l && 0 <= j < self.layers@[k].weights@.len() ==> (
                    #[trigger] layers@[k].weights@[j])@ == self.layers@[k].weights@[j]@,
            decreases depth - l,
        {
            let src = &self.layers[l];
            let mut ws: Vec<Vec<i64>> = Vec::new();
            let m = src.weights.len();
            let mut j: usize = 0;
            while j < m
                invariant
                    m == src.weights@.len(),
                    j <= m,
                    ws@.len() == j,
                    forall|k: int| 0 <= k < j ==> (#[trigger] ws@[k])@ == src.weights@[k]@,
                decreases m - j,
            {
                ws.push(copy_params(&src.weights[j]));
                j = j + 1;
            }
            let copied = Layer { weights: ws, biases: copy_params(&src.biases) };
            proof {
                assert(ints_of_all(copied.weights@) =~= ints_of_all(src.weights@));
            }
            layers.push(copied);
            l = l + 1;
        }
        let r = Net { widths, layers };
        proof {
            if self.wf() {
                assert forall|k: int| 0 <= k < r.layers@.len() implies layer_wf(
                    #[trigger] r.layers@[k],
                    r.widths@[k] as int,
                    r.widths@[k + 1] as int,
                ) by {
                    let mine = self.layers@[k];
                    let theirs = r.layers@[k];
                    assert(layer_wf(mine, self.widths@[k] as int, self.widths@[k + 1] as int));
                    assert forall|j: int| 0 <= j < theirs.weights@.len() implies (
                    #[trigger] theirs.weights@[j])@.len() == self.widths@[k] as int by {
                        assert(theirs.weights@[j]@ == mine.weights@[j]@);
                    }
                    assert forall|j: int, i: int|
                        0 <= j < theirs.weights@.len() && 0 <= i < self.widths@[k] as int
                        implies param_ok(#[trigger] theirs.weights@[j]@[i]) by {
                        assert(theirs.weights@[j]@ == mine.weights@[j]@);
                        assert(param_ok(mine.weights@[j]@[i]));
                    }
                }
            }
        }
        r
    }

    /// One mutation pass at the standard rate and variation.
    pub fn mutate(&mut self)
        requires
            old(self).wf(),
        ensures
            final(self).wf(),
            final(self).widths@ == old(self).widths@,
            Net::params_within(*old(self), *final(self), MUTATION_VARIATION_MILLI as int),
    {
        self.mutate_with(MUTATION_RATE_MILLI, MUTATION_VARIATION_MILLI);
    }

    /// One mutation pass: each parameter is, independently with probability
    /// `rate_milli / SCALE`, displaced by a uniform amount bounded by
    /// `variation_milli` and clamped into the parameter range.  The
    /// topology is invariant; with a zero rate no parameter changes.
    #[verifier::rlimit(60)]
    #[verifier::spinoff_prover]
    pub fn mutate_with(&mut self, rate_milli: u64, variation_milli: u64)
        requires
            old(self).wf(),
            rate_milli <= 1_000,
            variation_milli <= 16_000,
        ensures
            final(self).wf(),
            final(self).widths@ == old(self).widths@,
            Net::params_within(*old(self), *final(self), variation_milli as int),
            rate_milli == 0 ==> Net::same_params(*old(self), *final(self)),
    {
        let depth = self.layers.len();
        let mut l: usize = 0;
        while l < depth
            invariant
                old(self).wf(),
                rate_milli <= 1_000,
                variation_milli <= 16_000,
                depth == self.layers@.len(),
                l <= depth,
                self.widths@ == old(self).widths@,
                self.layers@.len() == old(self).layers@.len(),
                forall|k: int| l <= k < depth ==> #[trigger] self.layers@[k]
                    == old(self).layers@[k],
                forall|k: int|
                    0 <= k < l ==> (#[trigger] self.layers@[k]).biases@.len() == old(
                        self,
                    ).layers@[k].biases@.len(),
                forall|k: int|
                    0 <= k < l ==> (#[trigger] self.layers@[k]).weights@.len() == old(
                        self,
                    ).layers@[k].weights@.len(),
                forall|k: int, j: int|
                    0 <= k < l && 0 <= j < self.layers@[k].weights@.len() ==> (
                    #[trigger] self.layers@[k].weights@[j])@.len() == old(self).layers@[
                        k].weights@[j]@.len(),
                forall|k: int|
                    0 <= k < l ==> layer_wf(
                        #[trigger] self.layers@[k],
                        self.widths@[k] as int,
                        self.widths@[k + 1] as int,
                    ),
                forall|k: int, j: int|
                    0 <= k < l && 0 <= j < self.layers@[k].biases@.len() ==> spec_abs(
                        (#[trigger] old(self).layers@[k].biases@[j]) - self.layers@[
                            k].biases@[j],
                    ) <= variation_milli,
                forall|k: int, j: int, i: int|
                    0 <= k < l && 0 <= j < self.layers@[k].weights@.len() && 0 <= i
                        < self.layers@[k].weights@[j]@.len() ==> spec_abs(
                        (#[trigger] old(self).layers@[k].weights@[j]@[i]) - self.layers@[
                            k].weights@[j]@[i],
                    ) <= variation_milli,
                rate_milli == 0 ==> forall|k: int|
                    0 <= k < l ==> (#[trigger] self.layers@[k]).biases@ == old(self).layers@[
                        k].biases@,
                rate_milli == 0 ==> forall|k: int, j: int|
                    0 <= k < l && 0 <= j < self.layers@[k].weights@.len() ==> (
                    #[trigger] self.layers@[k].weights@[j])@ == old(self).layers@[k].weights@[
                        j]@,
            decreases depth - l,
        {
            mutate_layer(&mut self.layers[l], rate_milli, variation_milli);
            l = l + 1;
        }
        proof {
            if rate_milli == 0 {
                assert forall|k: int| 0 <= k < self.layers@.len() implies ints_of_all(
                    (#[trigger] self.layers@[k]).weights@,
                ) == ints_of_all(old(self).layers@[k].weights@) by {
                    assert(ints_of_all(self.layers@[k].weights@) =~= ints_of_all(
                        old(self).layers@[k].weights@,
                    ));
                }
            }
        }
    }
}

/// Mutate one layer in place: every weight vector, then the biases.
fn mutate_layer(layer: &mut Layer, rate_milli: u64, variation_milli: u64)
    requires
        rate_milli <= 1_000,
        variation_milli <= 16_000,
        forall|j: int|
            0 <= j < old(layer).biases@.len() ==> param_ok(#[trigger] old(layer).biases@[j]),
        forall|j: int, i: int|
            0 <= j < old(layer).weights@.len() && 0 <= i < old(layer).weights@[j]@.len()
                ==> param_ok(#[trigger] old(layer).weights@[j]@[i]),
    ensures
        final(layer).biases@.len() == old(layer).biases@.len(),
        final(layer).weights@.len() == old(layer).weights@.len(),
        forall|j: int|
            0 <= j < final(layer).weights@.len() ==> (#[trigger] final(layer).weights@[
                j])@.len() == old(layer).weights@[j]@.len(),
        forall|j: int|
            0 <= j < final(layer).biases@.len() ==> param_ok(#[trigger] final(layer).biases@[j]),
        forall|j: int, i: int|
            0 <= j < final(layer).weights@.len() && 0 <= i < final(layer).weights@[j]@.len()
                ==> param_ok(#[trigger] final(layer).weights@[j]@[i]),
        forall|j: int|
            0 <= j < final(layer).biases@.len() ==> spec_abs(
                (#[trigger] old(layer).biases@[j]) - final(layer).biases@[j],
            ) <= variation_milli,
        forall|j: int, i: int|
            0 <= j < final(layer).weights@.len() && 0 <= i < final(layer).weights@[j]@.len()
                ==> spec_abs(
                (#[trigger] old(layer).weights@[j]@[i]) - final(layer).weights@[j]@[i],
            ) <= variation_milli,
        rate_milli == 0 ==> final(layer).biases@ == old(layer).biases@,
        rate_milli == 0 ==> forall|j: int|
            0 <= j < final(layer).weights@.len() ==> (#[trigger] final(layer).weights@[j])@
                == old(layer).weights@[j]@,
{
    let m = layer.weights.len();
    let mut j: usize = 0;
    while j < m
        invariant
            rate_milli <= 1_000,
            variation_milli <= 16_000,
            m == layer.weights@.len(),
            j <= m,
            layer.weights@.len() == old(layer).weights@.len(),
            layer.biases@ == old(layer).biases@,
            forall|jj: int| j <= jj < m ==> (#[trigger] layer.weights@[jj])@ == old(
                layer,
            ).weights@[jj]@,
            forall|jj: int|
                0 <= jj < m ==> (#[trigger] layer.weights@[jj])@.len() == old(layer).weights@[
                    jj]@.len(),
            forall|jj: int, i: int|
                0 <= jj < old(layer).weights@.len() && 0 <= i < old(layer).weights@[jj]@.len()
                    ==> param_ok(#[trigger] old(layer).weights@[jj]@[i]),
            forall|jj: int, i: int|
                0 <= jj < j && 0 <= i < layer.weights@[jj]@.len() ==> param_ok(
                    #[trigger] layer.weights@[jj]@[i],
                ),
            forall|jj: int, i: int|
                0 <= jj < j && 0 <= i < layer.weights@[jj]@.len() ==> spec_abs(
                    (#[trigger] old(layer).weights@[jj]@[i]) - layer.weights@[jj]@[i],
                ) <= variation_milli,
            rate_milli == 0 ==> forall|jj: int|
                0 <= jj < j ==> (#[trigger] layer.weights@[jj])@ == old(layer).weights@[jj]@,
        decreases m - j,
    {
        mutate_params(&mut layer.weights[j], rate_milli, variation_milli);
        j = j + 1;
    }
    mutate_params(&mut layer.biases, rate_milli, variation_milli);
}

/// A parameter vector with every entry drawn from the initial range.
fn random_params(n: usize) -> (r: Vec<i64>)
    ensures
        r@.len() == n,
        forall|i: int|
            0 <= i < n ==> -INIT_WEIGHT_MILLI <= #[trigger] r@[i] <= INIT_WEIGHT_MILLI,
{
    let mut r: Vec<i64> = Vec::new();
    let mut i: usize = 0;
    while i < n
        invariant
            i <= n,
            r@.len() == i,
            forall|k: int|
                0 <= k < i ==> -INIT_WEIGHT_MILLI <= #[trigger] r@[k] <= INIT_WEIGHT_MILLI,
        decreases n - i,
    {
        let p = rand_signed(INIT_WEIGHT_MILLI as u64);
        r.push(p);
        i = i + 1;
    }
    r
}

/// A freshly initialized layer of the given widths.
fn random_layer(in_w: usize, out_w: usize) -> (r: Layer)
    ensures
        layer_wf(r, in_w as int, out_w as int),
        forall|j: int|
            0 <= j < out_w ==> -INIT_WEIGHT_MILLI <= (#[trigger] r.biases@[j])
                <= INIT_WEIGHT_MILLI,
        forall|j: int, i: int|
            0 <= j < out_w && 0 <= i < in_w ==> -INIT_WEIGHT_MILLI <= (#[trigger] r.weights@[
                j]@[i]) <= INIT_WEIGHT_MILLI,
{
    let mut ws: Vec<Vec<i64>> = Vec::new();
    let mut j: usize = 0;
    while j < out_w
        invariant
            j <= out_w,
            ws@.len() == j,
            forall|k: int| 0 <= k < j ==> (#[trigger] ws@[k])@.len() == in_w,
            forall|k: int, i: int|
                0 <= k < j && 0 <= i < in_w ==> -INIT_WEIGHT_MILLI <= (#[trigger] ws@[k]@[i])
                    <= INIT_WEIGHT_MILLI,
        decreases out_w - j,
    {
        ws.push(random_params(in_w));
        j = j + 1;
    }
    Layer { weights: ws, biases: random_params(out_w) }
}

/// Copy a width list.
fn copy_widths(v: &Vec<usize>) -> (r: Vec<usize>)
    ensures
        r@ == v@,
{
    let mut r: Vec<usize> = Vec::new();
    let n = v.len();
    let mut i: usize = 0;
    while i < n
        invariant
            n == v@.len(),
            i <= n,
            r@ == v@.subrange(0, i as int),
        decreases n - i,
    {
        r.push(v[i]);
        proof {
            assert(r@ =~= v@.subrange(0, i + 1));
        }
        i = i + 1;
    }
    proof {
        assert(v@.subrange(0, n as int) =~= v@);
    }
    r
}

/// Mutate one parameter vector in place: each entry is displaced with
/// probability `rate_milli / SCALE` by a uniform amount in
/// `[-variation_milli, variation_milli]` and clamped into the parameter
/// range.
fn mutate_params(v: &mut Vec<i64>, rate_milli: u64, variation_milli: u64)
    requires
        rate_milli <= 1_000,
        variation_milli <= 16_000,
        forall|i: int| 0 <= i < old(v)@.len() ==> param_ok(#[trigger] old(v)@[i]),
    ensures
        final(v)@.len() == old(v)@.len(),
        forall|i: int| 0 <= i < final(v)@.len() ==> param_ok(#[trigger] final(v)@[i]),
        forall|i: int|
            0 <= i < final(v)@.len() ==> spec_abs((#[trigger] old(v)@[i]) - final(v)@[i])
                <= variation_milli,
        rate_milli == 0 ==> final(v)@ == old(v)@,
{
    let n = v.len();
    let mut i: usize = 0;
    while i < n
        invariant
            rate_milli <= 1_000,
            variation_milli <= 16_000,
            n == v@.len(),
            v@.len() == old(v)@.len(),
            i <= n,
            forall|k: int| i <= k < n ==> #[trigger] v@[k] == old(v)@[k],
            forall|k: int| 0 <= k < n ==> param_ok(#[trigger] old(v)@[k]),
            forall|k: int| 0 <= k < i ==> param_ok(#[trigger] v@[k]),
            forall|k: int|
                0 <= k < i ==> spec_abs((#[trigger] old(v)@[k]) - v@[k]) <= variation_milli,
            rate_milli == 0 ==> forall|k: int| 0 <= k < i ==> #[trigger] v@[k] == old(v)@[k],
        decreases n - i,
    {
        let coin = rand_below(1_000);
        if coin < rate_milli {
            let delta = rand_signed(variation_milli);
            let shifted = v[i] + delta;
            let clamped = clamp_i64(shifted, -WEIGHT_LIMIT_MILLI, WEIGHT_LIMIT_MILLI);
            proof {
                assert(spec_abs(old(v)@[i as int] - spec_clamp(
                    old(v)@[i as int] + delta,
                    -WEIGHT_LIMIT_MILLI as int,
                    WEIGHT_LIMIT_MILLI as int,
                )) <= variation_milli);
            }
            v[i] = clamped;
        }
        i = i + 1;
    }
}

} // verus!

//! The creatures' brains: small fully connected feed-forward networks on
//! fixed-point values, and their mutation on reproduction.

use crate::fixed::{
    clamp, div_toward_zero, div_trunc, sigmoid_fx, sigmoid_spec, sin_fx, sin_spec, sinc_fx,
    sinc_spec, tanh_fx, tanh_spec, SCALE, VALUE_MAX,
};
use crate::random::uniform;
use rand::rngs::StdRng;
use vstd::prelude::*;

verus! {

/// Every weight and bias lies in `[-PARAM_BOUND, PARAM_BOUND]` (three units).
pub const PARAM_BOUND: i64 = 3_000_000;

/// A weighted sum saturates at this magnitude before it is scaled down.
pub const RAW_MAX: i64 = 1_000_000_000_000_000_000;

/// A mutation draws `u` in `[-MUTATION_RANGE, MUTATION_RANGE)` and adds `u^3`.
pub const MUTATION_RANGE: i64 = 400_000;

/// The largest step that one mutation gives a parameter: `0.4^3`.
pub const MUTATION_MAX: i64 = 64_000;

/// A parameter `p` moved by the cube of the draw `u`, kept within the
/// bound.
pub open spec fn mutated(p: int, u: int) -> int {
    clamp(p + div_trunc(u * u * u, SCALE * SCALE), -PARAM_BOUND as int, PARAM_BOUND as int)
}

/// `c` is `p` after one mutation: some draw from `[-MUTATION_RANGE,
/// MUTATION_RANGE)` gives it, and it is at most `MUTATION_MAX` away.
pub open spec fn is_mutation(c: i64, p: i64) -> bool {
    &&& -MUTATION_MAX <= c - p <= MUTATION_MAX
    &&& exists|u: int| -MUTATION_RANGE <= u < MUTATION_RANGE && c == #[trigger] mutated(p as int, u)
}

/// The nonlinearity that a layer applies to each of its weighted sums.
#[derive(Clone, Copy, Debug, PartialEq, Eq, Structural)]
pub enum Activation {
    Sigmoid,
    Tanh,
    ReLU,
    Sin,
    SinC,
}

pub open spec fn activation_spec(formula: Activation, x: int) -> int {
    match formula {
        Activation::Sigmoid => sigmoid_spec(x),
        Activation::Tanh => tanh_spec(x),
        Activation::ReLU => if x > 0 {
            x
        } else {
            0
        },
        Activation::Sin => sin_spec(x),
        Activation::SinC => sinc_spec(x),
    }
}

/// Applies `formula` to the fixed-point value `x`.
pub fn activation(formula: Activation, x: i64) -> (r: i64)
    requires
        -VALUE_MAX <= x <= VALUE_MAX,
    ensures
        r == activation_spec(formula, x as int),
        -VALUE_MAX <= r <= VALUE_MAX,
{
    match formula {
        Activation::Sigmoid => sigmoid_fx(x),
        Activation::Tanh => tanh_fx(x),
        Activation::ReLU => if x > 0 {
            x
        } else {
            0
        },
        Activation::Sin => sin_fx(x),
        Activation::SinC => sinc_fx(x),
    }
}

/// The sum of `row[u] * x[u]` over the first `n` indices, saturated at
/// `RAW_MAX` after each addition.
pub open spec fn weighted_sum(row: Seq<i64>, x: Seq<i64>, n: nat) -> int
    decreases n,
{
    if n == 0 {
        0
    } else {
        clamp(
            weighted_sum(row, x, (n - 1) as nat) + row[n - 1] * x[n - 1],
            -RAW_MAX as int,
            RAW_MAX as int,
        )
    }
}

/// One output of a layer: the activation of the weighted sum of its row.
pub open spec fn neuron(row: Seq<i64>, x: Seq<i64>, formula: Activation) -> int {
    activation_spec(formula, div_trunc(weighted_sum(row, x, row.len()), SCALE as int))
}

pub open spec fn bounded(v: Seq<i64>, b: int) -> bool {
    forall|i: int| 0 <= i < v.len() ==> -b <= #[trigger] v[i] <= b
}

/// A fully connected layer: one row of weights and one bias per output.
pub struct FCLayer {
    pub weights: Vec<Vec<i64>>,
    pub bias: Vec<i64>,
    pub activation: Activation,
}

impl FCLayer {
    pub open spec fn rows(&self) -> Seq<Seq<i64>> {
        Seq::new(self.weights@.len(), |v: int| self.weights@[v]@)
    }

    /// Every parameter lies within `PARAM_BOUND`.
    pub open spec fn wf(&self) -> bool {
        &&& forall|v: int| 0 <= v < self.rows().len() ==> bounded(#[trigger] self.rows()[v], PARAM_BOUND as int)
        &&& bounded(self.bias@, PARAM_BOUND as int)
    }

    /// The layer takes `n_in` values and gives `n_out`.
    pub open spec fn maps(&self, n_in: nat, n_out: nat) -> bool {
        &&& self.rows().len() == n_out
        &&& self.bias@.len() == n_out
        &&& forall|v: int| 0 <= v < n_out ==> (#[trigger] self.rows()[v]).len() == n_in
    }

    /// Both layers have the same rows, row lengths, bias length and activation.
    pub open spec fn same_shape(&self, other: &FCLayer) -> bool {
        &&& self.rows().len() == other.rows().len()
        &&& self.bias@.len() == other.bias@.len()
        &&& self.activation == other.activation
        &&& forall|v: int| 0 <= v < self.rows().len() ==> (#[trigger] self.rows()[v]).len() == other.rows()[v].len()
    }

    /// Every row has as many weights as `x` has values.
    pub open spec fn accepts(&self, x: Seq<i64>) -> bool {
        forall|v: int| 0 <= v < self.rows().len() ==> (#[trigger] self.rows()[v]).len() == x.len()
    }

    /// What the layer gives for `x`, or `None` on a dimension mismatch.
    pub open spec fn output(&self, x: Seq<i64>) -> Option<Seq<i64>> {
        if self.accepts(x) {
            Some(Seq::new(self.rows().len(), |v: int| neuron(self.rows()[v], x, self.activation) as i64))
        } else {
            None
        }
    }

    /// Each parameter of `self` is the one at the same place in `parent`
    /// after one mutation (`is_mutation`).
    pub open spec fn close_to(&self, parent: &FCLayer) -> bool {
        &&& forall|v: int, u: int|
            0 <= v < self.rows().len() && 0 <= u < self.rows()[v].len() ==> is_mutation(#[trigger] self.rows()[v][u], parent.rows()[v][u])
        &&& forall|v: int|
            0 <= v < self.bias@.len() ==> is_mutation(#[trigger] self.bias@[v], parent.bias@[v])
    }

    /// A layer from `width` inputs to `height` outputs whose weights and
    /// biases are drawn uniformly from `[-PARAM_BOUND, PARAM_BOUND)`.
    pub fn new(width: u32, height: u32, activation: Activation, rng: &mut StdRng) -> (r: AnyLayer)
        ensures
            r.layer().wf(),
            r.layer().maps(width as nat, height as nat),
            r.layer().activation == activation,
    {
        let mut weights: Vec<Vec<i64>> = Vec::new();
        let mut v: u32 = 0;
        while v < height
            invariant
                v <= height,
                weights@.len() == v,
                forall|k: int| 0 <= k < v ==> (#[trigger] weights@[k])@.len() == width,
                forall|k: int| 0 <= k < v ==> bounded((#[trigger] weights@[k])@, PARAM_BOUND as int),
            decreases height - v,
        {
            let mut row: Vec<i64> = Vec::new();
            let mut u: u32 = 0;
            while u < width
                invariant
                    u <= width,
                    row@.len() == u,
                    bounded(row@, PARAM_BOUND as int),
                decreases width - u,
            {
                row.push(uniform(rng, -PARAM_BOUND, PARAM_BOUND));
                u = u + 1;
            }
            weights.push(row);
            v = v + 1;
        }
        let mut bias: Vec<i64> = Vec::new();
        let mut v: u32 = 0;
        while v < height
            invariant
                v <= height,
                bias@.len() == v,
                bounded(bias@, PARAM_BOUND as int),
            decreases height - v,
        {
            bias.push(uniform(rng, -PARAM_BOUND, PARAM_BOUND));
            v = v + 1;
        }
        let layer = FCLayer { weights, bias, activation };
        assert(layer.wf()) by {
            assert forall|k: int| 0 <= k < layer.rows().len() implies bounded(#[trigger] layer.rows()[k], PARAM_BOUND as int) by {
                assert(layer.rows()[k] == layer.weights@[k]@);
            }
        }
        AnyLayer::FC(layer)
    }

    /// A parameter moved by the cube of a uniform draw from
    /// `[-MUTATION_RANGE, MUTATION_RANGE)`, then clamped into the bound.
    fn mutate(p: i64, rng: &mut StdRng) -> (r: i64)
        requires
            -PARAM_BOUND <= p <= PARAM_BOUND,
        ensures
            -PARAM_BOUND <= r <= PARAM_BOUND,
            is_mutation(r, p),
    {
        let u = uniform(rng, -MUTATION_RANGE, MUTATION_RANGE);
        assert(0 <= u * u <= 160_000_000_000) by (nonlinear_arith)
            requires
                -MUTATION_RANGE <= u <= MUTATION_RANGE,
        ;
        assert(-64_000_000_000_000_000 <= u * u * u <= 64_000_000_000_000_000) by (nonlinear_arith)
            requires
                -MUTATION_RANGE <= u <= MUTATION_RANGE,
        ;
        let cube: i64 = u * u * u;
        let d = div_toward_zero(cube, SCALE * SCALE);
        assert(-MUTATION_MAX <= d <= MUTATION_MAX) by (nonlinear_arith)
            requires
                -64_000_000_000_000_000 <= cube <= 64_000_000_000_000_000,
                d == div_trunc(cube as int, SCALE * SCALE),
        ;
        let t: i64 = p + d;
        let r: i64 = if t > PARAM_BOUND {
            PARAM_BOUND
        } else if t < -PARAM_BOUND {
            -PARAM_BOUND
        } else {
            t
        };
        assert(r == mutated(p as int, u as int));
        r
    }

    /// A mutated copy: every weight and bias moves by the cube of its own
    /// random draw from `[-MUTATION_RANGE, MUTATION_RANGE)` and is clamped
    /// into the bound; the shape and the activation are kept.
    pub fn spawn(&self, rng: &mut StdRng) -> (r: AnyLayer)
        requires
            self.wf(),
        ensures
            r.layer().wf(),
            r.layer().same_shape(self),
            r.layer().close_to(self),
    {
        let mut weights: Vec<Vec<i64>> = Vec::new();
        let mut v: usize = 0;
        while v < self.weights.len()
            invariant
                self.wf(),
                v <= self.rows().len(),
                weights@.len() == v,
                forall|k: int| 0 <= k < v ==> (#[trigger] weights@[k])@.len() == self.rows()[k].len(),
                forall|k: int| 0 <= k < v ==> bounded((#[trigger] weights@[k])@, PARAM_BOUND as int),
                forall|k: int, u: int|
                    0 <= k < v && 0 <= u < self.rows()[k].len() ==> is_mutation(#[trigger] weights@[k]@[u], self.rows()[k][u]),
            decreases self.rows().len() - v,
        {
            let src = &self.weights[v];
            assert(src@ == self.rows()[v as int]);
            assert(bounded(src@, PARAM_BOUND as int));
            let mut row: Vec<i64> = Vec::new();
            let mut u: usize = 0;
            while u < src.len()
                invariant
                    bounded(src@, PARAM_BOUND as int),
                    u <= src@.len(),
                    row@.len() == u,
                    bounded(row@, PARAM_BOUND as int),
                    forall|j: int| 0 <= j < u ==> is_mutation(#[trigger] row@[j], src@[j]),
                decreases src@.len() - u,
            {
                let m = Self::mutate(src[u], rng);
                row.push(m);
                u = u + 1;
            }
            weights.push(row);
            v = v + 1;
        }
        let mut bias: Vec<i64> = Vec::new();
        let mut v: usize = 0;
        while v < self.bias.len()
            invariant
                self.wf(),
                v <= self.bias@.len(),
                bias@.len() == v,
                bounded(bias@, PARAM_BOUND as int),
                forall|j: int| 0 <= j < v ==> is_mutation(#[trigger] bias@[j], self.bias@[j]),
            decreases self.bias@.len() - v,
        {
            let m = Self::mutate(self.bias[v], rng);
            bias.push(m);
            v = v + 1;
        }
        let layer = FCLayer { weights, bias, activation: self.activation };
        assert(layer.wf()) by {
            assert forall|k: int| 0 <= k < layer.rows().len() implies bounded(#[trigger] layer.rows()[k], PARAM_BOUND as int) by {
                assert(layer.rows()[k] == layer.weights@[k]@);
            }
        }
        assert(layer.close_to(self)) by {
            assert forall|k: int, u: int|
                0 <= k < layer.rows().len() && 0 <= u < layer.rows()[k].len() implies is_mutation(#[trigger] layer.rows()[k][u], self.rows()[k][u]) by {
                assert(layer.rows()[k] == layer.weights@[k]@);
                assert(weights@[k]@[u] == layer.rows()[k][u]);
            }
        }
        AnyLayer::FC(layer)
    }

    /// A layer with the given parameters, or `None` when one of them lies
    /// outside `[-PARAM_BOUND, PARAM_BOUND]`.
    pub fn from_parts(weights: Vec<Vec<i64>>, bias: Vec<i64>, activation: Activation) -> (r: Option<FCLayer>)
        ensures
            r.is_some() == ((forall|v: int| 0 <= v < weights@.len() ==> bounded(#[trigger] weights@[v]@, PARAM_BOUND as int))
                && bounded(bias@, PARAM_BOUND as int)),
            r matches Some(l) ==> l.weights@ == weights@ && l.bias@ == bias@ && l.activation == activation && l.wf(),
    {
        let mut v: usize = 0;
        while v < weights.len()
            invariant
                v <= weights@.len(),
                forall|k: int| 0 <= k < v ==> bounded(#[trigger] weights@[k]@, PARAM_BOUND as int),
            decreases weights@.len() - v,
        {
            let row = &weights[v];
            let mut u: usize = 0;
            while u < row.len()
                invariant
                    v < weights@.len(),
                    row@ == weights@[v as int]@,
                    u <= row@.len(),
                    forall|j: int| 0 <= j < u ==> -PARAM_BOUND <= #[trigger] row@[j] <= PARAM_BOUND,
                decreases row@.len() - u,
            {
                if row[u] < -PARAM_BOUND || row[u] > PARAM_BOUND {
                    assert(row@[u as int] == weights@[v as int]@[u as int]);
                    assert(!bounded(weights@[v as int]@, PARAM_BOUND as int));
                    return None;
                }
                u = u + 1;
            }
            assert(row@ == weights@[v as int]@);
            v = v + 1;
        }
        let mut u: usize = 0;
        while u < bias.len()
            invariant
                u <= bias@.len(),
                forall|j: int| 0 <= j < u ==> -PARAM_BOUND <= #[trigger] bias@[j] <= PARAM_BOUND,
            decreases bias@.len() - u,
        {
            if bias[u] < -PARAM_BOUND || bias[u] > PARAM_BOUND {
                assert(!bounded(bias@, PARAM_BOUND as int));
                return None;
            }
            u = u + 1;
        }
        let layer = FCLayer { weights, bias, activation };
        assert(layer.wf()) by {
            assert forall|k: int| 0 <= k < layer.rows().len() implies bounded(#[trigger] layer.rows()[k], PARAM_BOUND as int) by {
                assert(layer.rows()[k] == layer.weights@[k]@);
            }
        }
        Some(layer)
    }

    /// The weighted sum of one row with `x`.
    fn row_sum(row: &Vec<i64>, x: &Vec<i64>) -> (s: i64)
        requires
            row@.len() == x@.len(),
            bounded(row@, PARAM_BOUND as int),
        ensures
            s == weighted_sum(row@, x@, row@.len()),
            -RAW_MAX <= s <= RAW_MAX,
    {
        let mut sum: i64 = 0;
        let mut u: usize = 0;
        while u < row.len()
            invariant
                row@.len() == x@.len(),
                bounded(row@, PARAM_BOUND as int),
                    u <= row@.len(),
                sum == weighted_sum(row@, x@, u as nat),
                -RAW_MAX <= sum <= RAW_MAX,
            decreases row@.len() - u,
        {
            let w = row[u];
            let xv = x[u];
            assert(-28_000_000_000_000_000_000_000_000 <= w * xv <= 28_000_000_000_000_000_000_000_000) by (nonlinear_arith)
                requires
                    -PARAM_BOUND <= w <= PARAM_BOUND,
                    i64::MIN <= xv <= i64::MAX,
            ;
            let t: i128 = (sum as i128) + (w as i128) * (xv as i128);
            sum = if t > RAW_MAX as i128 {
                RAW_MAX
            } else if t < -RAW_MAX as i128 {
                -RAW_MAX
            } else {
                t as i64
            };
            u = u + 1;
        }
        sum
    }

    /// Evaluates the layer on `x`; `None` when some row's width differs from
    /// the length of `x`.
    pub fn forward(&self, x: &Vec<i64>) -> (r: Option<Vec<i64>>)
        requires
            self.wf(),
        ensures
            r.is_some() == self.output(x@).is_some(),
            r matches Some(out) ==> self.output(x@) == Some(out@) && bounded(out@, VALUE_MAX as int),
    {
        let mut output: Vec<i64> = Vec::new();
        let mut v: usize = 0;
        while v < self.weights.len()
            invariant
                self.wf(),
                    v <= self.rows().len(),
                output@.len() == v,
                forall|k: int| 0 <= k < v ==> (#[trigger] self.rows()[k]).len() == x@.len(),
                forall|k: int|
                    0 <= k < v ==> #[trigger] output@[k] == neuron(self.rows()[k], x@, self.activation),
                bounded(output@, VALUE_MAX as int),
            decreases self.rows().len() - v,
        {
            let row = &self.weights[v];
            assert(row@ == self.rows()[v as int]);
            if row.len() != x.len() {
                assert(!self.accepts(x@));
                return None;
            }
            assert(bounded(row@, PARAM_BOUND as int));
            let sum = Self::row_sum(row, x);
            let scaled = div_toward_zero(sum, SCALE);
            assert(-VALUE_MAX <= scaled <= VALUE_MAX) by (nonlinear_arith)
                requires
                    -RAW_MAX <= sum <= RAW_MAX,
                    scaled == div_trunc(sum as int, SCALE as int),
            ;
            let out = activation(self.activation, scaled);
            output.push(out);
            v = v + 1;
        }
        assert(self.accepts(x@));
        assert(output@ =~= Seq::new(self.rows().len(), |k: int| neuron(self.rows()[k], x@, self.activation) as i64));
        Some(output)
    }
}

/// A layer of a brain. Fully connected layers are the one kind there is.
pub enum AnyLayer {
    FC(FCLayer),
}

impl AnyLayer {
    pub open spec fn layer(&self) -> FCLayer {
        match self {
            AnyLayer::FC(l) => *l,
        }
    }

    /// A mutated copy of the layer.
    pub fn spawn(&self, rng: &mut StdRng) -> (r: AnyLayer)
        requires
            self.layer().wf(),
        ensures
            r.layer().wf(),
            r.layer().same_shape(&self.layer()),
            r.layer().close_to(&self.layer()),
    {
        match self {
            AnyLayer::FC(layer) => layer.spawn(rng),
        }
    }

    /// Evaluates the layer on `x`, or `None` on a dimension mismatch.
    pub fn forward(&self, x: &Vec<i64>) -> (r: Option<Vec<i64>>)
        requires
            self.layer().wf(),
        ensures
            r.is_some() == self.layer().output(x@).is_some(),
            r matches Some(out) ==> self.layer().output(x@) == Some(out@) && bounded(out@, VALUE_MAX as int),
    {
        match self {
            AnyLayer::FC(layer) => layer.forward(x),
        }
    }
}

/// The widths of the default network: seven senses, two hidden layers of
/// ten, three actions.
pub const BRAIN_IN: u32 = 7;
pub const BRAIN_L1: u32 = 10;
pub const BRAIN_L2: u32 = 10;
pub const BRAIN_OUT: u32 = 3;

/// What the first `n` layers give for `x`, or `None` at the first layer that
/// rejects what reaches it.
pub open spec fn output_upto(layers: Seq<AnyLayer>, x: Seq<i64>, n: nat) -> Option<Seq<i64>>
    decreases n,
{
    if n == 0 {
        Some(x)
    } else {
        match output_upto(layers, x, (n - 1) as nat) {
            Some(y) => layers[n - 1].layer().output(y),
            None => None,
        }
    }
}

/// A feed-forward network: an ordered stack of layers.
pub struct Brain {
    pub layers: Vec<AnyLayer>,
}

impl Brain {
    /// Every layer keeps its parameters within the bound.
    pub open spec fn wf(&self) -> bool {
        forall|i: int| 0 <= i < self.layers@.len() ==> (#[trigger] self.layers@[i]).layer().wf()
    }

    /// What the brain gives for `x`, or `None` on a dimension mismatch.
    pub open spec fn output(&self, x: Seq<i64>) -> Option<Seq<i64>> {
        output_upto(self.layers@, x, self.layers@.len())
    }

    /// Layer `i` maps `widths[i]` values to `widths[i + 1]`.
    pub open spec fn has_topology(&self, widths: Seq<nat>) -> bool {
        &&& widths.len() == self.layers@.len() + 1
        &&& forall|i: int| 0 <= i < self.layers@.len() ==> (#[trigger] self.layers@[i]).layer().maps(widths[i], widths[i + 1])
    }

    /// The default network, `7 -> 10 -> 10 -> 3`, with a logistic, a
    /// `sin(x)/x` and a `tanh` layer, its parameters drawn at random.
    pub fn new(rng: &mut StdRng) -> (r: Brain)
        ensures
            r.wf(),
            r.has_topology(seq![BRAIN_IN as nat, BRAIN_L1 as nat, BRAIN_L2 as nat, BRAIN_OUT as nat]),
            r.layers@[0].layer().activation == Activation::Sigmoid,
            r.layers@[1].layer().activation == Activation::SinC,
            r.layers@[2].layer().activation == Activation::Tanh,
    {
        let mut layers: Vec<AnyLayer> = Vec::new();
        layers.push(FCLayer::new(BRAIN_IN, BRAIN_L1, Activation::Sigmoid, rng));
        layers.push(FCLayer::new(BRAIN_L1, BRAIN_L2, Activation::SinC, rng));
        layers.push(FCLayer::new(BRAIN_L2, BRAIN_OUT, Activation::Tanh, rng));
        let r = Brain { layers };
        assert(r.has_topology(seq![BRAIN_IN as nat, BRAIN_L1 as nat, BRAIN_L2 as nat, BRAIN_OUT as nat]));
        r
    }

    /// A child brain: every layer mutated in order, the topology kept.
    pub fn spawn(&self, rng: &mut StdRng) -> (r: Brain)
        requires
            self.wf(),
        ensures
            r.wf(),
            r.layers@.len() == self.layers@.len(),
            forall|i: int|
                0 <= i < self.layers@.len() ==> (#[trigger] r.layers@[i]).layer().same_shape(&self.layers@[i].layer())
                    && r.layers@[i].layer().close_to(&self.layers@[i].layer()),
    {
        let mut layers: Vec<AnyLayer> = Vec::new();
        let mut i: usize = 0;
        while i < self.layers.len()
            invariant
                self.wf(),
                i <= self.layers@.len(),
                layers@.len() == i,
                forall|k: int| 0 <= k < i ==> (#[trigger] layers@[k]).layer().wf(),
                forall|k: int|
                    0 <= k < i ==> (#[trigger] layers@[k]).layer().same_shape(&self.layers@[k].layer())
                        && layers@[k].layer().close_to(&self.layers@[k].layer()),
            decreases self.layers@.len() - i,
        {
            let child = self.layers[i].spawn(rng);
            layers.push(child);
            i = i + 1;
        }
        Brain { layers }
    }

    /// A brain made of the given layers, in order.
    pub fn from_layers(layers: Vec<FCLayer>) -> (r: Brain)
        ensures
            r.layers@.len() == layers@.len(),
            forall|i: int| 0 <= i < layers@.len() ==> (#[trigger] r.layers@[i]).layer() == layers@[i],
    {
        let mut out: Vec<AnyLayer> = Vec::new();
        let mut rest = layers;
        let ghost all = rest@;
        while rest.len() > 0
            invariant
                out@.len() + rest@.len() == all.len(),
                rest@ == all.subrange(out@.len() as int, all.len() as int),
                forall|i: int| 0 <= i < out@.len() ==> (#[trigger] out@[i]).layer() == all[i],
            decreases rest@.len(),
        {
            let l = rest.remove(0);
            out.push(AnyLayer::FC(l));
        }
        Brain { layers: out }
    }
    /// Both brains have the same layers, weight for weight and bias for
    /// bias, with the same activations.
    pub open spec fn same_parameters(&self, other: &Brain) -> bool {
        &&& self.layers@.len() == other.layers@.len()
        &&& forall|i: int|
            0 <= i < self.layers@.len() ==> (#[trigger] self.layers@[i]).layer().rows() == other.layers@[i].layer().rows()
                && self.layers@[i].layer().bias@ == other.layers@[i].layer().bias@
                && self.layers@[i].layer().activation == other.layers@[i].layer().activation
    }

    /// Evaluates the network on `input`, layer by layer; `None` as soon as a
    /// layer rejects the width of what reaches it.
    pub fn forward(&self, input: &Vec<i64>) -> (r: Option<Vec<i64>>)
        requires
            self.wf(),
        ensures
            r.is_some() == self.output(input@).is_some(),
            r matches Some(out) ==> self.output(input@) == Some(out@),
    {
        let mut cur: Vec<i64> = Vec::new();
        let mut j: usize = 0;
        while j < input.len()
            invariant
                j <= input@.len(),
                cur@ == input@.subrange(0, j as int),
            decreases input@.len() - j,
        {
            cur.push(input[j]);
            j = j + 1;
        }
        assert(cur@ =~= input@);
        let mut i: usize = 0;
        while i < self.layers.len()
            invariant
                self.wf(),
                i <= self.layers@.len(),
                output_upto(self.layers@, input@, i as nat) == Some(cur@),
            decreases self.layers@.len() - i,
        {
            let step = self.layers[i].forward(&cur);
            match step {
                Some(next) => {
                    cur = next;
                },
                None => {
                    proof {
                        lemma_rejection_stays(self.layers@, input@, (i + 1) as nat, self.layers@.len());
                    }
                    return None;
                },
            }
            i = i + 1;
        }
        Some(cur)
    }
}

proof fn lemma_rejection_stays(layers: Seq<AnyLayer>, x: Seq<i64>, i: nat, n: nat)
    requires
        i <= n,
        output_upto(layers, x, i) is None,
    ensures
        output_upto(layers, x, n) is None,
    decreases n,
{
    if n > i {
        lemma_rejection_stays(layers, x, i, (n - 1) as nat);
    }
}

proof fn lemma_topology_upto(b: &Brain, widths: Seq<nat>, x: Seq<i64>, n: nat)
    requires
        b.has_topology(widths),
        x.len() == widths[0],
        n <= b.layers@.len(),
    ensures
        output_upto(b.layers@, x, n) matches Some(y) && y.len() == widths[n as int],
    decreases n,
{
    if n > 0 {
        lemma_topology_upto(b, widths, x, (n - 1) as nat);
        let l = b.layers@[n - 1].layer();
        assert(l.maps(widths[n - 1], widths[n as int]));
    }
}

/// A brain whose layers chain the widths `widths` answers every input of the
/// first width with an output of the last: no dimension mismatch can arise.
pub proof fn lemma_topology_gives_output(b: &Brain, widths: Seq<nat>, x: Seq<i64>)
    requires
        b.has_topology(widths),
        x.len() == widths[0],
    ensures
        b.output(x) matches Some(y) && y.len() == widths.last(),
{
    lemma_topology_upto(b, widths, x, b.layers@.len());
}

/// A layer whose rows all hold `width >= 1` weights signals a dimension
/// mismatch on every input shorter or longer than `width`.
pub proof fn lemma_layer_rejects_other_widths(l: &FCLayer, width: nat, x: Seq<i64>)
    requires
        width >= 1,
        l.rows().len() >= 1,
        forall|v: int| 0 <= v < l.rows().len() ==> (#[trigger] l.rows()[v]).len() == width,
        x.len() != width,
    ensures
        l.output(x) is None,
{
    assert(l.rows()[0].len() == width);
}

/// Two brains with the same parameters give the same output for every
/// input: a brain written out and read back behaves as the one it was
/// written from.
pub proof fn lemma_same_parameters_same_output(a: &Brain, b: &Brain, x: Seq<i64>)
    requires
        a.same_parameters(b),
    ensures
        a.output(x) == b.output(x),
{
    lemma_same_parameters_upto(a, b, x, a.layers@.len());
}

proof fn lemma_same_parameters_upto(a: &Brain, b: &Brain, x: Seq<i64>, n: nat)
    requires
        a.same_parameters(b),
        n <= a.layers@.len(),
    ensures
        output_upto(a.layers@, x, n) == output_upto(b.layers@, x, n),
    decreases n,
{
    if n > 0 {
        lemma_same_parameters_upto(a, b, x, (n - 1) as nat);
        let la = a.layers@[n - 1].layer();
        let lb = b.layers@[n - 1].layer();
        assert(la.rows() == lb.rows() && la.activation == lb.activation);
    }
}

} // verus!

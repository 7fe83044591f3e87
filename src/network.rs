//! Layers, networks, and inference through every layer in order.
use vstd::prelude::*;

use crate::kernel::{
    act_is_function, fits, inner_layer, is_inner_layer, lemma_inner_layer_unique, rows_of,
    step_is_function,
};

verus! {

/// The input width that a layer expects did not match the width of the
/// vector fed into it.
#[derive(Debug, Clone, Copy, PartialEq, Eq, Structural)]
pub struct DimensionMismatch {
    /// Index of the offending layer.
    pub layer: usize,
    /// The input width that the layer expects.
    pub expected: usize,
    /// The width of the vector that reached it.
    pub actual: usize,
}

/// The mathematical content of a layer.
pub struct LayerModel<T> {
    pub n_inputs: nat,
    pub weights: Seq<Seq<T>>,
    pub biases: Seq<T>,
}

impl<T> LayerModel<T> {
    /// Every row has `n_inputs` weights and there is one bias per row.
    pub open spec fn wf(self) -> bool {
        &&& self.biases.len() == self.weights.len()
        &&& forall|i: int| 0 <= i < self.weights.len() ==> (#[trigger] self.weights[i]).len() == self.n_inputs
    }

    /// The width of the layer's output: one element per row.
    pub open spec fn n_outputs(self) -> nat {
        self.weights.len()
    }
}

/// One weight matrix and its bias vector.
pub struct Layer<T> {
    n_inputs: usize,
    weights: Vec<Vec<T>>,
    biases: Vec<T>,
}

impl<T> View for Layer<T> {
    type V = LayerModel<T>;

    closed spec fn view(&self) -> LayerModel<T> {
        LayerModel { n_inputs: self.n_inputs as nat, weights: rows_of(self.weights@), biases: self.biases@ }
    }
}

impl<T> Layer<T> {
    #[verifier::type_invariant]
    closed spec fn layer_inv(self) -> bool {
        self@.wf()
    }

    /// A layer with input width `n_inputs`; `None` where a row does not have
    /// `n_inputs` weights or the number of biases differs from the number of rows.
    pub fn new(n_inputs: usize, weights: Vec<Vec<T>>, biases: Vec<T>) -> (r: Option<Layer<T>>)
        ensures
            r.is_some() <==> (LayerModel { n_inputs: n_inputs as nat, weights: rows_of(weights@), biases: biases@ }).wf(),
            r matches Some(l) ==> l@ == (LayerModel { n_inputs: n_inputs as nat, weights: rows_of(weights@), biases: biases@ }),
    {
        if weights.len() != biases.len() {
            return None;
        }
        let mut i: usize = 0;
        while i < weights.len()
            invariant
                i <= weights.len(),
                forall|j: int| 0 <= j < i ==> (#[trigger] rows_of(weights@)[j]).len() == n_inputs,
            decreases weights.len() - i,
        {
            if weights[i].len() != n_inputs {
                assert(rows_of(weights@)[i as int] == weights@[i as int]@);
                return None;
            }
            assert(rows_of(weights@)[i as int] == weights@[i as int]@);
            i = i + 1;
        }
        Some(Layer { n_inputs, weights, biases })
    }

    /// The input width that the layer expects.
    pub fn n_inputs(&self) -> (r: usize)
        ensures
            r == self@.n_inputs,
    {
        self.n_inputs
    }

    /// The width of the layer's output.
    pub fn n_outputs(&self) -> (r: usize)
        ensures
            r == self@.n_outputs(),
    {
        self.weights.len()
    }

    /// The layer's output on `x` with the given scalar arithmetic, after the nonlinearity.
    pub fn eval<F: Fn(T, T, T) -> T, A: Fn(T) -> T>(&self, x: &Vec<T>, mul_add: &F, act: &A) -> (y: Vec<T>)
        where
            T: Copy,
        requires
            x@.len() == self@.n_inputs,
            forall|acc: T, p: T, q: T| mul_add.requires((acc, p, q)),
            forall|v: T| act.requires((v,)),
        ensures
            is_inner_layer(*mul_add, *act, x@, self@.weights, self@.biases, y@),
    {
        proof {
            use_type_invariant(self);
        }
        assert(fits(x@, rows_of(self.weights@), self.biases@));
        inner_layer(x, &self.weights, &self.biases, mul_add, act)
    }
}

/// Each layer is well formed and feeds a vector of the width that the next
/// one expects.
pub open spec fn chained<T>(layers: Seq<LayerModel<T>>) -> bool {
    &&& forall|k: int| 0 <= k < layers.len() ==> (#[trigger] layers[k]).wf()
    &&& forall|k: int|
        0 < k < layers.len() ==> (#[trigger] layers[k]).n_inputs == layers[k - 1].n_outputs()
}

/// The first place where `layers` breaks the chain of widths: the index of
/// the layer, the width it expects, and the width that the layer before it gives.
pub open spec fn chain_break<T>(layers: Seq<LayerModel<T>>, k: int) -> bool {
    &&& 0 < k < layers.len()
    &&& layers[k].n_inputs != layers[k - 1].n_outputs()
    &&& forall|j: int| 0 < j < k ==> (#[trigger] layers[j]).n_inputs == layers[j - 1].n_outputs()
}

/// `out` is a possible result of running `input` through `layers` in order,
/// each layer followed by the nonlinearity.
pub open spec fn runs<T, F: Fn(T, T, T) -> T, A: Fn(T) -> T>(
    mul_add: F,
    act: A,
    layers: Seq<LayerModel<T>>,
    input: Seq<T>,
    out: Seq<T>,
) -> bool
    decreases layers.len(),
{
    if layers.len() == 0 {
        out == input
    } else {
        exists|mid: Seq<T>|
            runs(mul_add, act, layers.drop_last(), input, mid) && #[trigger] is_inner_layer(
                mul_add,
                act,
                mid,
                layers.last().weights,
                layers.last().biases,
                out,
            )
    }
}

/// An ordered stack of layers, each feeding the next.
pub struct Network<T> {
    layers: Vec<Layer<T>>,
}

impl<T> View for Network<T> {
    type V = Seq<LayerModel<T>>;

    closed spec fn view(&self) -> Seq<LayerModel<T>> {
        self.layers@.map_values(|l: Layer<T>| l@)
    }
}

impl<T> Network<T> {
    #[verifier::type_invariant]
    closed spec fn network_inv(self) -> bool {
        chained(self@)
    }

    /// The network made of `layers` in order; an error naming the first layer
    /// whose expected input width differs from the output width of the layer
    /// before it.
    pub fn new(layers: Vec<Layer<T>>) -> (r: Result<Network<T>, DimensionMismatch>)
        ensures
            r matches Ok(net) ==> net@ == layers@.map_values(|l: Layer<T>| l@),
            r.is_ok() <==> chained(layers@.map_values(|l: Layer<T>| l@)),
            r matches Err(e) ==> {
                let m = layers@.map_values(|l: Layer<T>| l@);
                &&& chain_break(m, e.layer as int)
                &&& e.expected == m[e.layer as int].n_inputs
                &&& e.actual == m[e.layer as int - 1].n_outputs()
            },
    {
        let ghost m = layers@.map_values(|l: Layer<T>| l@);
        let mut k: usize = 0;
        while k < layers.len()
            invariant
                k <= layers.len(),
                m == layers@.map_values(|l: Layer<T>| l@),
                forall|j: int| 0 <= j < k ==> (#[trigger] m[j]).wf(),
                forall|j: int| 0 < j < k ==> (#[trigger] m[j]).n_inputs == m[j - 1].n_outputs(),
            decreases layers.len() - k,
        {
            let cur = &layers[k];
            proof {
                use_type_invariant(cur);
            }
            if k > 0 {
                let expected = layers[k].n_inputs();
                let actual = layers[k - 1].n_outputs();
                if expected != actual {
                    let e = DimensionMismatch { layer: k, expected, actual };
                    assert(chain_break(m, k as int));
                    assert(!chained(m)) by {
                        assert(m[k as int].n_inputs != m[k - 1].n_outputs());
                    }
                    return Err(e);
                }
            }
            k = k + 1;
        }
        Ok(Network { layers })
    }

    /// The number of layers.
    pub fn num_layers(&self) -> (r: usize)
        ensures
            r == self@.len(),
    {
        self.layers.len()
    }
}

/// Runs `input` through every layer of `net` in order, threading each
/// layer's output into the next. `mul_add(acc, x, w)` is one step of a
/// neuron's accumulation, starting from its bias; `act` is the elementwise
/// nonlinearity. With no layers the input comes back unchanged. Where the
/// input's width is not the one the first layer expects, no layer runs and
/// the error names layer 0, its expected width and the input's width.
pub fn predict<T: Copy, F: Fn(T, T, T) -> T, A: Fn(T) -> T>(
    net: &Network<T>,
    input: Vec<T>,
    mul_add: &F,
    act: &A,
) -> (r: Result<Vec<T>, DimensionMismatch>)
    requires
        forall|acc: T, p: T, q: T| mul_add.requires((acc, p, q)),
        forall|v: T| act.requires((v,)),
    ensures
        net@.len() == 0 ==> r == Ok::<Vec<T>, DimensionMismatch>(input),
        r.is_err() <==> net@.len() > 0 && input@.len() != net@[0].n_inputs,
        r matches Err(e) ==> e == (DimensionMismatch {
            layer: 0,
            expected: net@[0].n_inputs as usize,
            actual: input@.len() as usize,
        }),
        r matches Ok(y) ==> runs(*mul_add, *act, net@, input@, y@),
{
    proof {
        use_type_invariant(net);
    }
    let ghost layers = net@;
    let mut v = input;
    let mut k: usize = 0;
    while k < net.layers.len()
        invariant
            layers == net@,
            chained(layers),
            k <= layers.len(),
            forall|acc: T, p: T, q: T| mul_add.requires((acc, p, q)),
            forall|v: T| act.requires((v,)),
            k == 0 ==> v == input,
            k > 0 ==> input@.len() == layers[0].n_inputs,
            k > 0 ==> v@.len() == layers[k - 1].n_outputs(),
            runs(*mul_add, *act, layers.subrange(0, k as int), input@, v@),
        decreases layers.len() - k,
    {
        let layer = &net.layers[k];
        assert(layers[k as int] == layer@);
        if v.len() != layer.n_inputs() {
            return Err(DimensionMismatch { layer: k, expected: layer.n_inputs(), actual: v.len() });
        }
        let next = layer.eval(&v, mul_add, act);
        proof {
            let pre = layers.subrange(0, k as int);
            let post = layers.subrange(0, k + 1);
            assert(post.len() == k + 1);
            assert(post.drop_last() == pre);
            assert(post.last() == layer@);
            assert(runs(*mul_add, *act, post, input@, next@));
        }
        v = next;
        k = k + 1;
    }
    assert(layers.subrange(0, layers.len() as int) == layers);
    Ok(v)
}

/// Inference is deterministic: where the scalar step and the nonlinearity
/// give one result for given arguments, running the same input through the
/// same layers gives one output.
pub proof fn lemma_predict_deterministic<T, F: Fn(T, T, T) -> T, A: Fn(T) -> T>(
    mul_add: F,
    act: A,
    layers: Seq<LayerModel<T>>,
    input: Seq<T>,
    y1: Seq<T>,
    y2: Seq<T>,
)
    requires
        step_is_function(mul_add),
        act_is_function(act),
        runs(mul_add, act, layers, input, y1),
        runs(mul_add, act, layers, input, y2),
    ensures
        y1 == y2,
    decreases layers.len(),
{
    if layers.len() > 0 {
        let last = layers.last();
        let m1 = choose|mid: Seq<T>|
            runs(mul_add, act, layers.drop_last(), input, mid) && #[trigger] is_inner_layer(
                mul_add,
                act,
                mid,
                last.weights,
                last.biases,
                y1,
            );
        let m2 = choose|mid: Seq<T>|
            runs(mul_add, act, layers.drop_last(), input, mid) && #[trigger] is_inner_layer(
                mul_add,
                act,
                mid,
                last.weights,
                last.biases,
                y2,
            );
        lemma_predict_deterministic(mul_add, act, layers.drop_last(), input, m1, m2);
        lemma_inner_layer_unique(mul_add, act, m1, last.weights, last.biases, y1, y2);
    }
}

} // verus!

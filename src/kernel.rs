//! One layer of a feed-forward network, generic over the scalar type.
//!
//! The arithmetic on scalars is supplied by the caller: `mul_add(acc, x, w)`
//! is one accumulation step (`acc + x * w` for ordinary numbers) and `act` is
//! the elementwise nonlinearity. This module fixes everything else: the bias
//! is the initial accumulator, products are added in index order, and row `i`
//! of the weights gives output `i`.
use vstd::prelude::*;

verus! {

/// `r` is a possible result of folding `mul_add` over the first `n` pairs of
/// `x` and `w`, starting from the accumulator `b`.
pub open spec fn folds_to<T, F: Fn(T, T, T) -> T>(
    mul_add: F,
    x: Seq<T>,
    w: Seq<T>,
    b: T,
    n: nat,
    r: T,
) -> bool
    decreases n,
{
    if n == 0 {
        r == b
    } else {
        exists|m: T|
            folds_to(mul_add, x, w, b, (n - 1) as nat, m) && #[trigger] mul_add.ensures(
                (m, x[n - 1], w[n - 1]),
                r,
            )
    }
}

/// `r` is a possible value of the neuron with weights `w` and bias `b` on input `x`.
pub open spec fn is_linear<T, F: Fn(T, T, T) -> T>(
    mul_add: F,
    x: Seq<T>,
    w: Seq<T>,
    b: T,
    r: T,
) -> bool {
    folds_to(mul_add, x, w, b, x.len(), r)
}

/// Every row of `w` has as many entries as the input `x`, and there is one bias per row.
pub open spec fn fits<T>(x: Seq<T>, w: Seq<Seq<T>>, b: Seq<T>) -> bool {
    &&& w.len() == b.len()
    &&& forall|i: int| 0 <= i < w.len() ==> (#[trigger] w[i]).len() == x.len()
}

/// `y` is a possible affine output of the layer `(w, b)` on input `x`.
pub open spec fn is_linear_layer<T, F: Fn(T, T, T) -> T>(
    mul_add: F,
    x: Seq<T>,
    w: Seq<Seq<T>>,
    b: Seq<T>,
    y: Seq<T>,
) -> bool {
    &&& y.len() == w.len()
    &&& forall|i: int| 0 <= i < w.len() ==> is_linear(mul_add, x, w[i], b[i], #[trigger] y[i])
}

/// `y` is a possible output of the layer `(w, b)` on input `x`, after the nonlinearity.
pub open spec fn is_inner_layer<T, F: Fn(T, T, T) -> T, A: Fn(T) -> T>(
    mul_add: F,
    act: A,
    x: Seq<T>,
    w: Seq<Seq<T>>,
    b: Seq<T>,
    y: Seq<T>,
) -> bool {
    &&& y.len() == w.len()
    &&& forall|i: int|
        0 <= i < w.len() ==> is_activated(mul_add, act, x, w[i], b[i], #[trigger] y[i])
}

/// `v` is a possible value of the neuron with weights `w` and bias `b` on
/// input `x`, after the nonlinearity.
pub open spec fn is_activated<T, F: Fn(T, T, T) -> T, A: Fn(T) -> T>(
    mul_add: F,
    act: A,
    x: Seq<T>,
    w: Seq<T>,
    b: T,
    v: T,
) -> bool {
    exists|m: T| #[trigger] is_linear(mul_add, x, w, b, m) && act.ensures((m,), v)
}

/// The rows of a weight matrix, as sequences.
pub open spec fn rows_of<T>(w: Seq<Vec<T>>) -> Seq<Seq<T>> {
    w.map_values(|r: Vec<T>| r@)
}

/// The value of one neuron: the bias plus the products of the input with
/// the weights, accumulated in index order.
pub fn linear<T: Copy, F: Fn(T, T, T) -> T>(x: &Vec<T>, w: &Vec<T>, b: T, mul_add: &F) -> (r: T)
    requires
        x.len() == w.len(),
        forall|acc: T, p: T, q: T| mul_add.requires((acc, p, q)),
    ensures
        is_linear(*mul_add, x@, w@, b, r),
{
    let mut acc = b;
    let mut i: usize = 0;
    while i < x.len()
        invariant
            x.len() == w.len(),
            i <= x.len(),
            forall|acc: T, p: T, q: T| mul_add.requires((acc, p, q)),
            folds_to(*mul_add, x@, w@, b, i as nat, acc),
        decreases x.len() - i,
    {
        let next = mul_add(acc, x[i], w[i]);
        proof {
            let n: nat = (i + 1) as nat;
            assert(mul_add.ensures((acc, x@[n - 1], w@[n - 1]), next));
            assert(folds_to(*mul_add, x@, w@, b, n, next));
        }
        acc = next;
        i = i + 1;
    }
    acc
}

/// The affine output of a layer: element `i` is the neuron with weights
/// `w[i]` and bias `b[i]`, in row order.
pub fn linear_layer<T: Copy, F: Fn(T, T, T) -> T>(
    x: &Vec<T>,
    w: &Vec<Vec<T>>,
    b: &Vec<T>,
    mul_add: &F,
) -> (y: Vec<T>)
    requires
        fits(x@, rows_of(w@), b@),
        forall|acc: T, p: T, q: T| mul_add.requires((acc, p, q)),
    ensures
        is_linear_layer(*mul_add, x@, rows_of(w@), b@, y@),
{
    let mut y: Vec<T> = Vec::new();
    let mut i: usize = 0;
    while i < w.len()
        invariant
            fits(x@, rows_of(w@), b@),
            forall|acc: T, p: T, q: T| mul_add.requires((acc, p, q)),
            i <= w.len(),
            y.len() == i,
            forall|j: int|
                0 <= j < i ==> is_linear(*mul_add, x@, rows_of(w@)[j], b@[j], #[trigger] y@[j]),
        decreases w.len() - i,
    {
        assert(rows_of(w@)[i as int] == w[i as int]@);
        let v = linear(x, &w[i], b[i], mul_add);
        y.push(v);
        i = i + 1;
    }
    y
}

/// The output of a layer after the nonlinearity: the affine output with
/// `act` applied to each element.
pub fn inner_layer<T: Copy, F: Fn(T, T, T) -> T, A: Fn(T) -> T>(
    x: &Vec<T>,
    w: &Vec<Vec<T>>,
    b: &Vec<T>,
    mul_add: &F,
    act: &A,
) -> (y: Vec<T>)
    requires
        fits(x@, rows_of(w@), b@),
        forall|acc: T, p: T, q: T| mul_add.requires((acc, p, q)),
        forall|v: T| act.requires((v,)),
    ensures
        is_inner_layer(*mul_add, *act, x@, rows_of(w@), b@, y@),
{
    let lin = linear_layer(x, w, b, mul_add);
    let mut y: Vec<T> = Vec::new();
    let mut i: usize = 0;
    while i < lin.len()
        invariant
            is_linear_layer(*mul_add, x@, rows_of(w@), b@, lin@),
            forall|v: T| act.requires((v,)),
            i <= lin.len(),
            y.len() == i,
            forall|j: int|
                0 <= j < i ==> is_activated(
                    *mul_add,
                    *act,
                    x@,
                    rows_of(w@)[j],
                    b@[j],
                    #[trigger] y@[j],
                ),
        decreases lin.len() - i,
    {
        let v = act(lin[i]);
        assert(is_linear(*mul_add, x@, rows_of(w@)[i as int], b@[i as int], lin@[i as int]));
        y.push(v);
        assert(act.ensures((lin@[i as int],), y@[i as int]));
        assert(is_activated(*mul_add, *act, x@, rows_of(w@)[i as int], b@[i as int], y@[i as int]));
        i = i + 1;
    }
    y
}

/// Each accumulation step has at most one result for given arguments.
pub open spec fn step_is_function<T, F: Fn(T, T, T) -> T>(mul_add: F) -> bool {
    forall|acc: T, p: T, q: T, r1: T, r2: T|
        #[trigger] mul_add.ensures((acc, p, q), r1) && #[trigger] mul_add.ensures((acc, p, q), r2)
            ==> r1 == r2
}

/// The nonlinearity has at most one result for a given argument.
pub open spec fn act_is_function<T, A: Fn(T) -> T>(act: A) -> bool {
    forall|v: T, r1: T, r2: T|
        #[trigger] act.ensures((v,), r1) && #[trigger] act.ensures((v,), r2) ==> r1 == r2
}

/// With a deterministic step, a fold has at most one result.
pub proof fn lemma_fold_unique<T, F: Fn(T, T, T) -> T>(
    mul_add: F,
    x: Seq<T>,
    w: Seq<T>,
    b: T,
    n: nat,
    r1: T,
    r2: T,
)
    requires
        step_is_function(mul_add),
        folds_to(mul_add, x, w, b, n, r1),
        folds_to(mul_add, x, w, b, n, r2),
    ensures
        r1 == r2,
    decreases n,
{
    if n > 0 {
        let m1 = choose|m: T|
            folds_to(mul_add, x, w, b, (n - 1) as nat, m) && #[trigger] mul_add.ensures(
                (m, x[n - 1], w[n - 1]),
                r1,
            );
        let m2 = choose|m: T|
            folds_to(mul_add, x, w, b, (n - 1) as nat, m) && #[trigger] mul_add.ensures(
                (m, x[n - 1], w[n - 1]),
                r2,
            );
        lemma_fold_unique(mul_add, x, w, b, (n - 1) as nat, m1, m2);
    }
}

/// With a deterministic step and nonlinearity, a layer has at most one output.
pub proof fn lemma_inner_layer_unique<T, F: Fn(T, T, T) -> T, A: Fn(T) -> T>(
    mul_add: F,
    act: A,
    x: Seq<T>,
    w: Seq<Seq<T>>,
    b: Seq<T>,
    y1: Seq<T>,
    y2: Seq<T>,
)
    requires
        step_is_function(mul_add),
        act_is_function(act),
        is_inner_layer(mul_add, act, x, w, b, y1),
        is_inner_layer(mul_add, act, x, w, b, y2),
    ensures
        y1 == y2,
{
    assert forall|i: int| 0 <= i < y1.len() implies y1[i] == y2[i] by {
        assert(is_activated(mul_add, act, x, w[i], b[i], y1[i]));
        assert(is_activated(mul_add, act, x, w[i], b[i], y2[i]));
        let m1 = choose|m: T| #[trigger] is_linear(mul_add, x, w[i], b[i], m) && act.ensures((m,), y1[i]);
        let m2 = choose|m: T| #[trigger] is_linear(mul_add, x, w[i], b[i], m) && act.ensures((m,), y2[i]);
        lemma_fold_unique(mul_add, x, w[i], b[i], x.len(), m1, m2);
    }
    assert(y1 =~= y2);
}

/// On an input whose entries are all `zero`, where a step with input `zero`
/// leaves the accumulator as it was, a layer's affine output is its bias vector.
pub proof fn lemma_zero_input_gives_biases<T, F: Fn(T, T, T) -> T>(
    mul_add: F,
    zero: T,
    x: Seq<T>,
    w: Seq<Seq<T>>,
    b: Seq<T>,
    y: Seq<T>,
)
    requires
        forall|acc: T, q: T, r: T| #[trigger] mul_add.ensures((acc, zero, q), r) ==> r == acc,
        forall|j: int| 0 <= j < x.len() ==> #[trigger] x[j] == zero,
        fits(x, w, b),
        is_linear_layer(mul_add, x, w, b, y),
    ensures
        y == b,
{
    assert forall|i: int| 0 <= i < y.len() implies y[i] == b[i] by {
        assert(w[i].len() == x.len());
        lemma_fold_of_zeros(mul_add, zero, x, w[i], b[i], x.len(), y[i]);
    }
    assert(y =~= b);
}

/// Folding steps with input `zero` that leave the accumulator unchanged
/// ends where it started.
proof fn lemma_fold_of_zeros<T, F: Fn(T, T, T) -> T>(
    mul_add: F,
    zero: T,
    x: Seq<T>,
    w: Seq<T>,
    b: T,
    n: nat,
    r: T,
)
    requires
        forall|acc: T, q: T, r: T| #[trigger] mul_add.ensures((acc, zero, q), r) ==> r == acc,
        forall|j: int| 0 <= j < x.len() ==> #[trigger] x[j] == zero,
        n <= x.len(),
        folds_to(mul_add, x, w, b, n, r),
    ensures
        r == b,
    decreases n,
{
    if n > 0 {
        let m = choose|m: T|
            folds_to(mul_add, x, w, b, (n - 1) as nat, m) && #[trigger] mul_add.ensures(
                (m, x[n - 1], w[n - 1]),
                r,
            );
        assert(x[n - 1] == zero);
        lemma_fold_of_zeros(mul_add, zero, x, w, b, (n - 1) as nat, m);
    }
}

/// Every output of a layer is a result of the nonlinearity, so it has each
/// property `p` that all of the nonlinearity's results have (for absolute
/// value: it is not negative).
pub proof fn lemma_inner_layer_in_range<T, F: Fn(T, T, T) -> T, A: Fn(T) -> T>(
    mul_add: F,
    act: A,
    p: spec_fn(T) -> bool,
    x: Seq<T>,
    w: Seq<Seq<T>>,
    b: Seq<T>,
    y: Seq<T>,
)
    requires
        forall|v: T, r: T| #[trigger] act.ensures((v,), r) ==> p(r),
        is_inner_layer(mul_add, act, x, w, b, y),
    ensures
        forall|i: int| 0 <= i < y.len() ==> p(#[trigger] y[i]),
{
    assert forall|i: int| 0 <= i < y.len() implies p(y[i]) by {
        assert(is_activated(mul_add, act, x, w[i], b[i], y[i]));
        let m = choose|m: T| #[trigger] is_linear(mul_add, x, w[i], b[i], m) && act.ensures((m,), y[i]);
    }
}

} // verus!

use sonic::kernel::{inner_layer, linear, linear_layer};
use sonic::network::{predict, DimensionMismatch, Layer, Network};

fn mul_add(acc: f32, x: f32, w: f32) -> f32 {
    acc + x * w
}

fn abs(y: f32) -> f32 {
    y.abs()
}

fn layer(n_inputs: usize, weights: Vec<Vec<f32>>, biases: Vec<f32>) -> Layer<f32> {
    Layer::new(n_inputs, weights, biases).expect("well-formed layer")
}

#[test]
fn identity_layer_scenario() {
    let w = vec![vec![1.0f32, 0.0], vec![0.0, 1.0]];
    let b = vec![0.0f32, 0.0];
    let x = vec![2.0f32, -3.0];
    assert_eq!(linear_layer(&x, &w, &b, &mul_add), vec![2.0, -3.0]);
    assert_eq!(inner_layer(&x, &w, &b, &mul_add, &abs), vec![2.0, 3.0]);
    let net = Network::new(vec![layer(2, w, b)]).unwrap();
    assert_eq!(predict(&net, x, &mul_add, &abs), Ok(vec![2.0, 3.0]));
}

#[test]
fn sum_plus_bias_scenario() {
    let net = Network::new(vec![layer(2, vec![vec![1.0, 1.0]], vec![5.0])]).unwrap();
    assert_eq!(predict(&net, vec![1.0, 1.0], &mul_add, &abs), Ok(vec![7.0]));
}

#[test]
fn input_width_mismatch_names_first_layer() {
    let l0 = layer(3, vec![vec![1.0, 2.0, 3.0], vec![0.5, 0.5, 0.5]], vec![0.0, 1.0]);
    let l1 = layer(2, vec![vec![1.0, -1.0]], vec![0.0]);
    let net = Network::new(vec![l0, l1]).unwrap();
    assert_eq!(net.num_layers(), 2);
    let r = predict(&net, vec![1.0, 2.0, 3.0, 4.0], &mul_add, &abs);
    assert_eq!(r, Err(DimensionMismatch { layer: 0, expected: 3, actual: 4 }));
}

#[test]
fn two_layers_thread_outputs() {
    let l0 = layer(3, vec![vec![1.0, 2.0, 3.0], vec![0.5, 0.5, 0.5]], vec![0.0, 1.0]);
    let l1 = layer(2, vec![vec![1.0, -1.0]], vec![0.0]);
    let net = Network::new(vec![l0, l1]).unwrap();
    // layer 0: [|0 - 1 + 0 - 3|, |1 - 0.5 + 0 - 0.5|] = [4, 0]; layer 1: |0 + 4 - 0| = 4
    let r = predict(&net, vec![-1.0, 0.0, -1.0], &mul_add, &abs);
    assert_eq!(r, Ok(vec![4.0]));
}

#[test]
fn empty_network_is_identity() {
    let net: Network<f32> = Network::new(vec![]).unwrap();
    assert_eq!(net.num_layers(), 0);
    let x = vec![1.5f32, -2.25, 0.0];
    assert_eq!(predict(&net, x.clone(), &mul_add, &abs), Ok(x));
    assert_eq!(predict(&net, vec![], &mul_add, &abs), Ok(vec![]));
}

#[test]
fn predict_twice_gives_same_output() {
    let l0 = layer(2, vec![vec![0.1, -0.7], vec![1.3, 0.2], vec![-2.0, 0.9]], vec![0.3, -0.1, 0.0]);
    let l1 = layer(3, vec![vec![0.5, -0.25, 1.0]], vec![-0.75]);
    let net = Network::new(vec![l0, l1]).unwrap();
    let x = vec![0.6f32, -1.4];
    let a = predict(&net, x.clone(), &mul_add, &abs).unwrap();
    let b = predict(&net, x, &mul_add, &abs).unwrap();
    assert_eq!(a.len(), 1);
    assert_eq!(a[0].to_bits(), b[0].to_bits());
}

#[test]
fn zero_input_gives_biases() {
    let w = vec![vec![1.0f32, -2.0, 3.0], vec![4.0, 5.0, -6.0]];
    let b = vec![0.25f32, -7.5];
    let x = vec![0.0f32; 3];
    assert_eq!(linear_layer(&x, &w, &b, &mul_add), b);
}

#[test]
fn inner_layer_is_non_negative() {
    let w = vec![vec![1.0f32, -2.0], vec![-4.0, 0.5], vec![0.0, 0.0]];
    let b = vec![-10.0f32, 1.0, -0.5];
    let y = inner_layer(&vec![3.0, 2.0], &w, &b, &mul_add, &abs);
    assert_eq!(y, vec![11.0, 10.0, 0.5]);
    assert!(y.iter().all(|v| *v >= 0.0));
}

#[test]
fn linear_is_bias_plus_dot_product() {
    let r = linear(&vec![1.0f32, 2.0, 3.0], &vec![4.0, 5.0, 6.0], 0.5, &mul_add);
    assert_eq!(r, 32.5);
    assert_eq!(linear(&vec![], &vec![], 9.0f32, &mul_add), 9.0);
}

#[test]
fn linear_starts_from_bias_in_index_order() {
    // A step that is not symmetric shows the order of accumulation.
    let step = |acc: i64, x: i64, w: i64| acc * 10 + x * w;
    assert_eq!(linear(&vec![1i64, 2, 3], &vec![1, 1, 1], 4, &step), 4123);
}

#[test]
fn layer_rejects_malformed_shapes() {
    assert!(Layer::new(2, vec![vec![1.0f32, 2.0], vec![3.0]], vec![0.0, 0.0]).is_none());
    assert!(Layer::new(2, vec![vec![1.0f32, 2.0]], vec![0.0, 0.0]).is_none());
    let l = Layer::new(2, vec![vec![1.0f32, 2.0]], vec![0.0]).unwrap();
    assert_eq!(l.n_inputs(), 2);
    assert_eq!(l.n_outputs(), 1);
    let empty: Layer<f32> = Layer::new(4, vec![], vec![]).unwrap();
    assert_eq!(empty.n_outputs(), 0);
}

#[test]
fn network_rejects_broken_chain() {
    let l0 = layer(2, vec![vec![1.0, 0.0], vec![0.0, 1.0]], vec![0.0, 0.0]);
    let l1 = layer(2, vec![vec![1.0, 1.0]], vec![0.0]);
    let l2 = layer(3, vec![vec![1.0, 1.0, 1.0]], vec![0.0]);
    let r = Network::new(vec![l0, l1, l2]);
    assert_eq!(r.err(), Some(DimensionMismatch { layer: 2, expected: 3, actual: 1 }));
}

#[test]
fn layer_eval_applies_activation() {
    let l = layer(2, vec![vec![1.0, 1.0]], vec![-5.0]);
    assert_eq!(l.eval(&vec![1.0, 1.0], &mul_add, &abs), vec![3.0]);
}

use neural_net::activation::ActivationFunc;
use neural_net::matrix::Matrix;
use neural_net::network::Network;
use neural_net::scalar::{RandomSource, Scalar};

/// Double-precision scalars for the engine.
#[derive(Clone, Copy, Debug, PartialEq)]
struct Fx(f64);

impl Scalar for Fx {
    fn zero_spec() -> Fx {
        Fx(0.0)
    }

    fn add_spec(self, other: Fx) -> Fx {
        Fx(self.0 + other.0)
    }

    fn sub_spec(self, other: Fx) -> Fx {
        Fx(self.0 - other.0)
    }

    fn mul_spec(self, other: Fx) -> Fx {
        Fx(self.0 * other.0)
    }

    fn is_positive_spec(self) -> bool {
        self.0 > 0.0
    }

    fn zero() -> Fx {
        Fx(0.0)
    }

    fn is_positive(self) -> bool {
        self.0 > 0.0
    }

    fn equals(self, other: Fx) -> bool {
        self.0 == other.0
    }

    fn add(self, other: Fx) -> Fx {
        Fx(self.0 + other.0)
    }

    fn sub(self, other: Fx) -> Fx {
        Fx(self.0 - other.0)
    }

    fn mul(self, other: Fx) -> Fx {
        Fx(self.0 * other.0)
    }
}

/// The logistic activation; its derivative is taken at the cached
/// activation value, as the backward pass expects.
struct Sigmoid;

impl ActivationFunc<Fx> for Sigmoid {
    fn function_spec(x: Fx) -> Fx {
        Sigmoid::function(x)
    }

    fn derivative_spec(x: Fx) -> Fx {
        Sigmoid::derivative(x)
    }

    fn function(x: Fx) -> Fx {
        Fx(1.0 / (1.0 + (-x.0).exp()))
    }

    fn derivative(x: Fx) -> Fx {
        Fx(x.0 * (1.0 - x.0))
    }
}

/// A deterministic generator of scalars spread over [-1, 1).
struct TestRng {
    state: u64,
}

impl RandomSource<Fx> for TestRng {
    fn next_scalar(&mut self) -> Fx {
        self.state = self
            .state
            .wrapping_mul(6364136223846793005)
            .wrapping_add(1442695040888963407);
        let unit = ((self.state >> 11) as f64) / ((1u64 << 53) as f64);
        Fx(2.0 * unit - 1.0)
    }
}

fn xor_batch() -> (Vec<Vec<Fx>>, Vec<Vec<Fx>>) {
    let inputs = vec![
        vec![Fx(0.0), Fx(0.0)],
        vec![Fx(0.0), Fx(1.0)],
        vec![Fx(1.0), Fx(0.0)],
        vec![Fx(1.0), Fx(1.0)],
    ];
    let targets = vec![vec![Fx(0.0)], vec![Fx(1.0)], vec![Fx(1.0)], vec![Fx(0.0)]];
    (inputs, targets)
}

#[test]
fn xor_training_converges() {
    let mut rng = TestRng { state: 42 };
    let mut net: Network<Fx, Sigmoid> =
        Network::new(vec![2, 4, 1], Fx(0.5), &mut rng).unwrap();
    let (inputs, targets) = xor_batch();
    net.train(&inputs, &targets, 5000).unwrap();
    let mut mse = 0.0f64;
    for k in 0..4 {
        let out = net.feed_forward(&inputs[k]).unwrap();
        let diff = out[0].0 - targets[k][0].0;
        mse += diff * diff;
    }
    mse /= 4.0;
    assert!(mse < 0.05, "mean squared error {mse} did not fall below 0.05");
}

#[test]
fn float_add_then_sub_returns_original() {
    let a = Matrix { rows: 1, cols: 2, data: vec![vec![Fx(1.5), Fx(-2.25)]] };
    let b = Matrix { rows: 1, cols: 2, data: vec![vec![Fx(0.5), Fx(4.0)]] };
    let back = a.add(&b).unwrap().sub(&b).unwrap();
    assert_eq!(back.get(0, 0), Fx(1.5));
    assert_eq!(back.get(0, 1), Fx(-2.25));
}

#[test]
fn float_forward_twice_same_output() {
    let mut rng = TestRng { state: 7 };
    let mut net: Network<Fx, Sigmoid> =
        Network::new(vec![2, 3, 2], Fx(0.1), &mut rng).unwrap();
    let input = vec![Fx(0.3), Fx(-0.8)];
    let out1 = net.feed_forward(&input).unwrap();
    let out2 = net.feed_forward(&input).unwrap();
    assert_eq!(out1, out2);
}

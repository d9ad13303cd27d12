use neural_net::activation::IdentityActivation;
use neural_net::matrix::Matrix;
use neural_net::network::{Network, NetworkRecord};
use neural_net::scalar::Lcg;
use neural_net::NetError;

type Net = Network<i64, IdentityActivation>;

fn one_one_record(weight: i64, bias: i64, learning_rate: i64) -> NetworkRecord<i64> {
    NetworkRecord {
        layers: vec![1, 1],
        learning_rate,
        weights: vec![Matrix { rows: 1, cols: 1, data: vec![vec![weight]] }],
        biases: vec![Matrix { rows: 1, cols: 1, data: vec![vec![bias]] }],
    }
}

#[test]
fn new_rejects_invalid_topology() {
    let mut rng = Lcg::new(1);
    assert!(matches!(
        Net::new(vec![3], 1, &mut rng),
        Err(NetError::InvalidTopology)
    ));
    assert!(matches!(
        Net::new(vec![], 1, &mut rng),
        Err(NetError::InvalidTopology)
    ));
    assert!(matches!(
        Net::new(vec![2, 0, 1], 1, &mut rng),
        Err(NetError::InvalidTopology)
    ));
}

#[test]
fn new_rejects_nonpositive_learning_rate() {
    let mut rng = Lcg::new(1);
    assert!(matches!(
        Net::new(vec![1, 1], 0, &mut rng),
        Err(NetError::InvalidTopology)
    ));
    assert!(matches!(
        Net::new(vec![1, 1], -3, &mut rng),
        Err(NetError::InvalidTopology)
    ));
}

#[test]
fn load_rejects_nonpositive_learning_rate() {
    assert!(matches!(
        Net::load(one_one_record(2, 3, 0)),
        Err(NetError::CorruptRecord)
    ));
    assert!(matches!(
        Net::load(one_one_record(2, 3, -1)),
        Err(NetError::CorruptRecord)
    ));
}

#[test]
fn new_builds_shaped_parameters() {
    let mut rng = Lcg::new(7);
    let net = Net::new(vec![3, 4, 2], 1, &mut rng).unwrap();
    assert_eq!(net.layers, vec![3, 4, 2]);
    assert_eq!(net.weights.len(), 2);
    assert_eq!(net.biases.len(), 2);
    assert_eq!((net.weights[0].rows, net.weights[0].cols), (4, 3));
    assert_eq!((net.weights[1].rows, net.weights[1].cols), (2, 4));
    assert_eq!((net.biases[0].rows, net.biases[0].cols), (4, 1));
    assert_eq!((net.biases[1].rows, net.biases[1].cols), (2, 1));
    assert_eq!(net.data.len(), 0);
    assert!(net.is_well_formed());
}

#[test]
fn forward_output_and_cache_shapes() {
    let mut rng = Lcg::new(11);
    let mut net = Net::new(vec![3, 4, 2], 1, &mut rng).unwrap();
    let out = net.feed_forward(&vec![1, 2, 3]).unwrap();
    assert_eq!(out.len(), 2);
    assert_eq!(net.data.len(), 3);
    assert_eq!((net.data[0].rows, net.data[0].cols), (3, 1));
    assert_eq!((net.data[1].rows, net.data[1].cols), (4, 1));
    assert_eq!((net.data[2].rows, net.data[2].cols), (2, 1));
}

#[test]
fn forward_rejects_wrong_input_length() {
    let mut rng = Lcg::new(11);
    let mut net = Net::new(vec![3, 4, 2], 1, &mut rng).unwrap();
    assert_eq!(net.feed_forward(&vec![1, 2]), Err(NetError::InputSizeMismatch));
}

#[test]
fn forward_exact_affine_value() {
    let mut net = Net::load(one_one_record(2, 3, 1)).unwrap();
    let out = net.feed_forward(&vec![5]).unwrap();
    assert_eq!(out, vec![13]);
}

#[test]
fn forward_twice_same_output() {
    let mut rng = Lcg::new(23);
    let mut net = Net::new(vec![3, 4, 2], 1, &mut rng).unwrap();
    let out1 = net.feed_forward(&vec![9, -2, 4]).unwrap();
    let out2 = net.feed_forward(&vec![9, -2, 4]).unwrap();
    assert_eq!(out1, out2);
}

#[test]
fn backward_rejects_wrong_target_length() {
    let mut net = Net::load(one_one_record(2, 3, 1)).unwrap();
    let out = net.feed_forward(&vec![5]).unwrap();
    assert_eq!(
        net.back_propogate(&out, &vec![1, 2]),
        Err(NetError::TargetSizeMismatch)
    );
}

#[test]
fn backward_without_forward_is_stale() {
    let mut net = Net::load(one_one_record(2, 3, 1)).unwrap();
    assert_eq!(
        net.back_propogate(&vec![13], &vec![14]),
        Err(NetError::StaleOrMissingActivationCache)
    );
}

#[test]
fn backward_rejects_foreign_outputs() {
    // Forward on input 5 caches output 13; outputs [99] cannot come from
    // that pass, whatever their length.
    let mut net = Net::load(one_one_record(2, 3, 1)).unwrap();
    let out = net.feed_forward(&vec![5]).unwrap();
    assert_eq!(out, vec![13]);
    assert_eq!(
        net.back_propogate(&vec![99], &vec![14]),
        Err(NetError::StaleOrMissingActivationCache)
    );
    let snap = net.save();
    assert_eq!(snap.weights[0].get(0, 0), 2);
    assert_eq!(snap.biases[0].get(0, 0), 3);
}

#[test]
fn backward_consumes_cache() {
    let mut net = Net::load(one_one_record(2, 3, 1)).unwrap();
    let out = net.feed_forward(&vec![5]).unwrap();
    assert!(net.back_propogate(&out, &vec![14]).is_ok());
    assert_eq!(net.data.len(), 0);
    assert_eq!(
        net.back_propogate(&out, &vec![14]),
        Err(NetError::StaleOrMissingActivationCache)
    );
}

#[test]
fn backward_exact_update() {
    // Identity activation, layers [1, 1], weight 2, bias 3, learning rate 1.
    // Forward on input 5 caches [5, 13]; target 14 gives error 1, gradient
    // derivative(13) = 1, so the scaled gradient is 1: the weight gains
    // 1 * 5 and the bias gains 1.
    let mut net = Net::load(one_one_record(2, 3, 1)).unwrap();
    let out = net.feed_forward(&vec![5]).unwrap();
    net.back_propogate(&out, &vec![14]).unwrap();
    let snap = net.save();
    assert_eq!(snap.weights[0].get(0, 0), 7);
    assert_eq!(snap.biases[0].get(0, 0), 4);
}

#[test]
fn train_one_epoch_matches_manual_passes() {
    let mut trained = Net::load(one_one_record(2, 3, 1)).unwrap();
    trained.train(&vec![vec![5]], &vec![vec![14]], 1).unwrap();

    let mut manual = Net::load(one_one_record(2, 3, 1)).unwrap();
    let out = manual.feed_forward(&vec![5]).unwrap();
    manual.back_propogate(&out, &vec![14]).unwrap();

    let a = trained.save();
    let b = manual.save();
    assert_eq!(a.weights[0].get(0, 0), b.weights[0].get(0, 0));
    assert_eq!(a.biases[0].get(0, 0), b.biases[0].get(0, 0));
}

#[test]
fn train_rejects_flawed_batch_unchanged() {
    let mut net = Net::load(one_one_record(2, 3, 1)).unwrap();
    assert_eq!(
        net.train(&vec![vec![1, 2]], &vec![vec![1]], 3),
        Err(NetError::InputSizeMismatch)
    );
    assert_eq!(
        net.train(&vec![vec![1]], &vec![vec![1, 2]], 3),
        Err(NetError::TargetSizeMismatch)
    );
    let snap = net.save();
    assert_eq!(snap.weights[0].get(0, 0), 2);
    assert_eq!(snap.biases[0].get(0, 0), 3);
}

#[test]
fn train_zero_epochs_changes_nothing() {
    let mut net = Net::load(one_one_record(2, 3, 1)).unwrap();
    net.train(&vec![vec![5]], &vec![vec![14]], 0).unwrap();
    let snap = net.save();
    assert_eq!(snap.weights[0].get(0, 0), 2);
    assert_eq!(snap.biases[0].get(0, 0), 3);
}

#[test]
fn save_load_round_trip_is_exact() {
    let mut rng = Lcg::new(99);
    let net = Net::new(vec![2, 3, 2], 5, &mut rng).unwrap();
    let snap = net.save();
    let back = Net::load(snap).unwrap();
    assert_eq!(back.layers, net.layers);
    assert_eq!(back.learning_rate, net.learning_rate);
    assert_eq!(back.data.len(), 0);
    for i in 0..net.weights.len() {
        for r in 0..net.weights[i].rows {
            for c in 0..net.weights[i].cols {
                assert_eq!(back.weights[i].get(r, c), net.weights[i].get(r, c));
            }
        }
        for r in 0..net.biases[i].rows {
            assert_eq!(back.biases[i].get(r, 0), net.biases[i].get(r, 0));
        }
    }
}

#[test]
fn load_rejects_corrupt_records() {
    let mut bad_topology = one_one_record(2, 3, 1);
    bad_topology.layers = vec![1];
    assert!(matches!(Net::load(bad_topology), Err(NetError::CorruptRecord)));

    let mut zero_layer = one_one_record(2, 3, 1);
    zero_layer.layers = vec![1, 0];
    assert!(matches!(Net::load(zero_layer), Err(NetError::CorruptRecord)));

    let mut missing_weights = one_one_record(2, 3, 1);
    missing_weights.weights = vec![];
    assert!(matches!(Net::load(missing_weights), Err(NetError::CorruptRecord)));

    let mut wrong_shape = one_one_record(2, 3, 1);
    wrong_shape.weights = vec![Matrix { rows: 2, cols: 1, data: vec![vec![1], vec![2]] }];
    assert!(matches!(Net::load(wrong_shape), Err(NetError::CorruptRecord)));

    let mut ragged = one_one_record(2, 3, 1);
    ragged.biases = vec![Matrix { rows: 1, cols: 1, data: vec![vec![]] }];
    assert!(matches!(Net::load(ragged), Err(NetError::CorruptRecord)));
}

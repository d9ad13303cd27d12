use vstd::prelude::*;

use core::marker::PhantomData;

use crate::activation::ActivationFunc;
use crate::matrix::{
    add_grid, column_grid, column_to_seq, hadamard_grid, is_grid, map_grid, mul_grid, sub_grid,
    transpose_grid, Matrix,
};
use crate::scalar::{RandomSource, Scalar};
use crate::NetError;

verus! {

// ---------------------------------------------------------------------------
// Specification-level network semantics
// ---------------------------------------------------------------------------

/// The views of a sequence of matrices.
pub open spec fn grids_of<T>(v: Seq<Matrix<T>>) -> Seq<Seq<Seq<T>>> {
    v.map_values(|m: Matrix<T>| m@)
}

/// The views of a sequence of vectors.
pub open spec fn seqs_of<T>(v: Seq<Vec<T>>) -> Seq<Seq<T>> {
    v.map_values(|x: Vec<T>| x@)
}

/// A valid layer-size sequence: at least two layers, every layer nonempty.
pub open spec fn topology_ok(layers: Seq<usize>) -> bool {
    &&& layers.len() >= 2
    &&& forall|i: int| 0 <= i < layers.len() ==> (#[trigger] layers[i]) >= 1
}

/// Two matrices holding the same shape and the same cells.
pub open spec fn matrix_eq<T>(a: Matrix<T>, b: Matrix<T>) -> bool {
    &&& a.rows == b.rows
    &&& a.cols == b.cols
    &&& a@ == b@
}

/// Two matrix sequences equal pairwise in shape and cells.
pub open spec fn matrices_eq<T>(a: Seq<Matrix<T>>, b: Seq<Matrix<T>>) -> bool {
    &&& a.len() == b.len()
    &&& forall|i: int| 0 <= i < a.len() ==> matrix_eq(#[trigger] a[i], #[trigger] b[i])
}

/// The grid with the activation function applied to every cell.
pub open spec fn activate_grid<T: Scalar, F: ActivationFunc<T>>(m: Seq<Seq<T>>) -> Seq<Seq<T>> {
    map_grid(m, |x: T| F::function_spec(x))
}

/// The grid with the activation derivative applied to every cell.
pub open spec fn derive_grid<T: Scalar, F: ActivationFunc<T>>(m: Seq<Seq<T>>) -> Seq<Seq<T>> {
    map_grid(m, |x: T| F::derivative_spec(x))
}

/// The grid with every cell scaled by the learning rate `lr`.
pub open spec fn scale_grid<T: Scalar>(m: Seq<Seq<T>>, lr: T) -> Seq<Seq<T>> {
    map_grid(m, |x: T| x.mul_spec(lr))
}

/// The activation column of layer `k` of the forward pass: layer 0 is the
/// input wrapped as a column, and each later layer is
/// `activate(weights[k-1] · previous + biases[k-1])`.
pub open spec fn forward_column<T: Scalar, F: ActivationFunc<T>>(
    weights: Seq<Seq<Seq<T>>>,
    biases: Seq<Seq<Seq<T>>>,
    input: Seq<T>,
    k: int,
) -> Seq<Seq<T>>
    decreases k,
{
    if k <= 0 {
        column_grid(input)
    } else {
        activate_grid::<T, F>(
            add_grid(
                mul_grid(weights[k - 1], forward_column::<T, F>(weights, biases, input, k - 1)),
                biases[k - 1],
            ),
        )
    }
}

/// All `n` activation columns of the forward pass on `input`.
pub open spec fn forward_acts<T: Scalar, F: ActivationFunc<T>>(
    weights: Seq<Seq<Seq<T>>>,
    biases: Seq<Seq<Seq<T>>>,
    input: Seq<T>,
    n: int,
) -> Seq<Seq<Seq<T>>> {
    Seq::new(n as nat, |k: int| forward_column::<T, F>(weights, biases, input, k))
}

/// The state of the backward pass just before connection `i` is processed,
/// walking connections from the last (`i == weights.len()`, where nothing
/// has been processed yet) down to the first (`i == 0`, where every weight
/// and bias has been updated exactly once).
///
/// The components are the weight grids, the bias grids, the propagated
/// error column and the gradient column.  One step scales the elementwise
/// product of gradient and error by the learning rate, adds its outer
/// product with the cached activation of layer `i` to `weights[i]`, adds
/// it to `biases[i]`, and propagates the error through the transpose of
/// the pre-update `weights[i]` — the update of a connection never feeds
/// into the error that crosses it in the same pass.
pub open spec fn bp_state<T: Scalar, F: ActivationFunc<T>>(
    w0: Seq<Seq<Seq<T>>>,
    b0: Seq<Seq<Seq<T>>>,
    acts: Seq<Seq<Seq<T>>>,
    lr: T,
    outputs: Seq<T>,
    targets: Seq<T>,
    i: int,
) -> (Seq<Seq<Seq<T>>>, Seq<Seq<Seq<T>>>, Seq<Seq<T>>, Seq<Seq<T>>)
    decreases w0.len() - i,
{
    if i < 0 || i >= w0.len() {
        (
            w0,
            b0,
            sub_grid(column_grid(targets), column_grid(outputs)),
            derive_grid::<T, F>(column_grid(outputs)),
        )
    } else {
        let st = bp_state::<T, F>(w0, b0, acts, lr, outputs, targets, i + 1);
        let w = st.0;
        let b = st.1;
        let e = st.2;
        let g = st.3;
        let g1 = scale_grid(hadamard_grid(g, e), lr);
        let new_wi = add_grid(w[i], mul_grid(g1, transpose_grid(acts[i])));
        let new_bi = add_grid(b[i], g1);
        let e2 = mul_grid(transpose_grid(w[i]), e);
        let g2 = derive_grid::<T, F>(acts[i]);
        (w.update(i, new_wi), b.update(i, new_bi), e2, g2)
    }
}

/// One training step on one example: a forward pass from the given
/// parameters, then the backward pass over its activation cache.
pub open spec fn train_step<T: Scalar, F: ActivationFunc<T>>(
    w: Seq<Seq<Seq<T>>>,
    b: Seq<Seq<Seq<T>>>,
    lr: T,
    input: Seq<T>,
    target: Seq<T>,
    nlayers: int,
) -> (Seq<Seq<Seq<T>>>, Seq<Seq<Seq<T>>>) {
    let acts = forward_acts::<T, F>(w, b, input, nlayers);
    let outputs = column_to_seq(forward_column::<T, F>(w, b, input, nlayers - 1));
    let st = bp_state::<T, F>(w, b, acts, lr, outputs, target, 0);
    (st.0, st.1)
}

/// The parameters after training on the first `j` examples of the batch,
/// in order.
pub open spec fn train_examples<T: Scalar, F: ActivationFunc<T>>(
    w: Seq<Seq<Seq<T>>>,
    b: Seq<Seq<Seq<T>>>,
    lr: T,
    inputs: Seq<Seq<T>>,
    targets: Seq<Seq<T>>,
    nlayers: int,
    j: int,
) -> (Seq<Seq<Seq<T>>>, Seq<Seq<Seq<T>>>)
    decreases j,
{
    if j <= 0 {
        (w, b)
    } else {
        let prev = train_examples::<T, F>(w, b, lr, inputs, targets, nlayers, j - 1);
        train_step::<T, F>(prev.0, prev.1, lr, inputs[j - 1], targets[j - 1], nlayers)
    }
}

/// The parameters after `e` full epochs over the batch, in order.
pub open spec fn train_epochs<T: Scalar, F: ActivationFunc<T>>(
    w: Seq<Seq<Seq<T>>>,
    b: Seq<Seq<Seq<T>>>,
    lr: T,
    inputs: Seq<Seq<T>>,
    targets: Seq<Seq<T>>,
    nlayers: int,
    e: int,
) -> (Seq<Seq<Seq<T>>>, Seq<Seq<Seq<T>>>)
    decreases e,
{
    if e <= 0 {
        (w, b)
    } else {
        let prev = train_epochs::<T, F>(w, b, lr, inputs, targets, nlayers, e - 1);
        train_examples::<T, F>(
            prev.0,
            prev.1,
            lr,
            inputs,
            targets,
            nlayers,
            inputs.len() as int,
        )
    }
}

/// The first size flaw of a training batch, scanned in order: an input
/// whose length is not the input layer size, or a target whose length is
/// not the output layer size.
pub open spec fn batch_flaw<T>(
    inputs: Seq<Seq<T>>,
    targets: Seq<Seq<T>>,
    n_in: int,
    n_out: int,
) -> Option<NetError>
    decreases inputs.len(),
{
    if inputs.len() == 0 {
        None
    } else if inputs[0].len() != n_in {
        Some(NetError::InputSizeMismatch)
    } else if targets[0].len() != n_out {
        Some(NetError::TargetSizeMismatch)
    } else {
        batch_flaw(inputs.skip(1), targets.skip(1), n_in, n_out)
    }
}

/// Whether `outputs` reads back exactly the cached activation column of
/// layer `last`, cell for cell — the values the matching forward pass
/// returned.
pub open spec fn outputs_match_cache<T>(outputs: Seq<T>, data: Seq<Matrix<T>>, last: int) -> bool {
    forall|q: int| 0 <= q < outputs.len() ==> outputs[q] == (#[trigger] data[last]@[q])[0]
}

// ---------------------------------------------------------------------------
// The executable network
// ---------------------------------------------------------------------------

/// A multilayer perceptron over scalar type `T` with activation strategy
/// `F`: a layer-size sequence, one weight matrix and one bias column per
/// connection between consecutive layers, a learning rate, and the
/// ephemeral activation cache written by the latest forward pass and
/// consumed by the following backward pass.
pub struct Network<T, F> {
    /// Neuron count of each layer; layer 0 is the input layer.
    pub layers: Vec<usize>,
    /// Weight matrix per connection: `weights[i]` has shape
    /// `layers[i+1] × layers[i]`.
    pub weights: Vec<Matrix<T>>,
    /// Bias column per connection: `biases[i]` has shape `layers[i+1] × 1`.
    pub biases: Vec<Matrix<T>>,
    /// Activation cache: empty, or one column per layer from the latest
    /// forward pass.
    pub data: Vec<Matrix<T>>,
    /// Gradient-descent step size.
    pub learning_rate: T,
    /// The activation strategy, present only at the type level.
    pub activation: PhantomData<F>,
}

/// A persistent snapshot of a network: its layers, learning rate, weights
/// and biases.  The activation cache is not part of the persistent state.
pub struct NetworkRecord<T> {
    /// Neuron count of each layer.
    pub layers: Vec<usize>,
    /// Gradient-descent step size.
    pub learning_rate: T,
    /// Weight matrix per connection.
    pub weights: Vec<Matrix<T>>,
    /// Bias column per connection.
    pub biases: Vec<Matrix<T>>,
}

/// Whether a snapshot describes a well-formed network: a valid topology
/// and one weight matrix and bias column of the right shape per
/// connection.
pub open spec fn record_wf<T: Scalar>(r: NetworkRecord<T>) -> bool {
    &&& topology_ok(r.layers@)
    &&& r.learning_rate.is_positive_spec()
    &&& r.weights@.len() == r.layers@.len() - 1
    &&& r.biases@.len() == r.layers@.len() - 1
    &&& forall|i: int|
        0 <= i < r.weights@.len() ==> {
            &&& (#[trigger] r.weights@[i]).wf()
            &&& r.weights@[i].rows == r.layers@[i + 1]
            &&& r.weights@[i].cols == r.layers@[i]
        }
    &&& forall|i: int|
        0 <= i < r.biases@.len() ==> {
            &&& (#[trigger] r.biases@[i]).wf()
            &&& r.biases@[i].rows == r.layers@[i + 1]
            &&& r.biases@[i].cols == 1
        }
}

/// Whether snapshot `r` captures exactly the persistent state of
/// network `n`.
pub open spec fn snapshot_matches<T, F>(r: NetworkRecord<T>, n: Network<T, F>) -> bool {
    &&& r.layers@ == n.layers@
    &&& r.learning_rate == n.learning_rate
    &&& matrices_eq(r.weights@, n.weights@)
    &&& matrices_eq(r.biases@, n.biases@)
}

/// A matrix equal in shape and cells to a well-formed matrix is itself
/// well formed.
proof fn lemma_matrix_eq_wf<T>(a: Matrix<T>, b: Matrix<T>)
    requires
        matrix_eq(a, b),
        a.wf(),
    ensures
        b.wf(),
{
    assert(b.data@.len() == b@.len());
    assert forall|i: int| 0 <= i < b.rows implies (#[trigger] b.data@[i])@.len() == b.cols by {
        assert(b.data@[i]@ == b@[i]);
        assert(a@[i] == a.data@[i]@);
    }
}

fn clone_usize_vec(v: &Vec<usize>) -> (r: Vec<usize>)
    ensures
        r@ == v@,
{
    let mut r: Vec<usize> = Vec::new();
    let mut i: usize = 0;
    while i < v.len()
        invariant
            i <= v@.len(),
            r@.len() == i,
            forall|k: int| 0 <= k < i ==> r@[k] == v@[k],
        decreases v@.len() - i,
    {
        r.push(v[i]);
        i += 1;
    }
    proof {
        assert(r@ =~= v@);
    }
    r
}

fn clone_matrix_vec<T: Scalar>(v: &Vec<Matrix<T>>) -> (r: Vec<Matrix<T>>)
    ensures
        matrices_eq(r@, v@),
{
    let mut r: Vec<Matrix<T>> = Vec::new();
    let mut i: usize = 0;
    while i < v.len()
        invariant
            i <= v@.len(),
            r@.len() == i,
            forall|k: int| 0 <= k < i ==> matrix_eq(#[trigger] r@[k], v@[k]),
        decreases v@.len() - i,
    {
        r.push(v[i].clone());
        i += 1;
    }
    r
}

impl<T: Scalar, F: ActivationFunc<T>> Network<T, F> {
    /// The structural invariant: a valid topology, one weight matrix and
    /// one bias column of the shape fixed by the topology per connection,
    /// and an activation cache that is either empty or holds one column
    /// per layer.
    pub open spec fn wf(self) -> bool {
        &&& topology_ok(self.layers@)
        &&& self.learning_rate.is_positive_spec()
        &&& self.weights@.len() == self.layers@.len() - 1
        &&& self.biases@.len() == self.layers@.len() - 1
        &&& forall|i: int|
            0 <= i < self.weights@.len() ==> {
                &&& (#[trigger] self.weights@[i]).wf()
                &&& self.weights@[i].rows == self.layers@[i + 1]
                &&& self.weights@[i].cols == self.layers@[i]
            }
        &&& forall|i: int|
            0 <= i < self.biases@.len() ==> {
                &&& (#[trigger] self.biases@[i]).wf()
                &&& self.biases@[i].rows == self.layers@[i + 1]
                &&& self.biases@[i].cols == 1
            }
        &&& self.cache_wf()
    }

    /// The activation-cache part of the invariant.
    pub open spec fn cache_wf(self) -> bool {
        self.data@.len() == 0 || {
            &&& self.data@.len() == self.layers@.len()
            &&& forall|i: int|
                0 <= i < self.data@.len() ==> {
                    &&& (#[trigger] self.data@[i]).wf()
                    &&& self.data@[i].rows == self.layers@[i]
                    &&& self.data@[i].cols == 1
                }
        }
    }

    /// Runtime check of the structural invariant, for callers outside
    /// verified code.
    pub fn is_well_formed(&self) -> (r: bool)
        ensures
            r == self.wf(),
    {
        if !self.learning_rate.is_positive() {
            return false;
        }
        if self.layers.len() < 2 {
            return false;
        }
        let mut i: usize = 0;
        while i < self.layers.len()
            invariant
                i <= self.layers@.len(),
                forall|k: int| 0 <= k < i ==> (#[trigger] self.layers@[k]) >= 1,
            decreases self.layers@.len() - i,
        {
            if self.layers[i] < 1 {
                return false;
            }
            i += 1;
        }
        if self.weights.len() != self.layers.len() - 1 || self.biases.len() != self.layers.len()
            - 1 {
            return false;
        }
        let mut i: usize = 0;
        while i < self.weights.len()
            invariant
                self.weights@.len() == self.layers@.len() - 1,
                self.biases@.len() == self.layers@.len() - 1,
                self.layers@.len() >= 2,
                i <= self.weights@.len(),
                forall|k: int|
                    0 <= k < i ==> {
                        &&& (#[trigger] self.weights@[k]).wf()
                        &&& self.weights@[k].rows == self.layers@[k + 1]
                        &&& self.weights@[k].cols == self.layers@[k]
                    },
                forall|k: int|
                    0 <= k < i ==> {
                        &&& (#[trigger] self.biases@[k]).wf()
                        &&& self.biases@[k].rows == self.layers@[k + 1]
                        &&& self.biases@[k].cols == 1
                    },
            decreases self.weights@.len() - i,
        {
            let w = &self.weights[i];
            if !w.check_shape() || w.rows != self.layers[i + 1] || w.cols != self.layers[i] {
                proof {
                    assert(!{
                        &&& self.weights@[i as int].wf()
                        &&& self.weights@[i as int].rows == self.layers@[i as int + 1]
                        &&& self.weights@[i as int].cols == self.layers@[i as int]
                    });
                }
                return false;
            }
            let b = &self.biases[i];
            if !b.check_shape() || b.rows != self.layers[i + 1] || b.cols != 1 {
                proof {
                    assert(!{
                        &&& self.biases@[i as int].wf()
                        &&& self.biases@[i as int].rows == self.layers@[i as int + 1]
                        &&& self.biases@[i as int].cols == 1
                    });
                }
                return false;
            }
            i += 1;
        }
        if self.data.len() != 0 {
            if self.data.len() != self.layers.len() {
                return false;
            }
            let mut i: usize = 0;
            while i < self.data.len()
                invariant
                    self.data@.len() == self.layers@.len(),
                    i <= self.data@.len(),
                    forall|k: int|
                        0 <= k < i ==> {
                            &&& (#[trigger] self.data@[k]).wf()
                            &&& self.data@[k].rows == self.layers@[k]
                            &&& self.data@[k].cols == 1
                        },
                decreases self.data@.len() - i,
            {
                let d = &self.data[i];
                if !d.check_shape() || d.rows != self.layers[i] || d.cols != 1 {
                    proof {
                        assert(!{
                            &&& self.data@[i as int].wf()
                            &&& self.data@[i as int].rows == self.layers@[i as int]
                            &&& self.data@[i as int].cols == 1
                        });
                    }
                    return false;
                }
                i += 1;
            }
        }
        true
    }

    /// Constructs a fresh network: validates the topology, then draws
    /// every weight and bias from the random source.  Only the shapes of
    /// the drawn matrices are promised; the contract holds for every
    /// outcome of the source.
    pub fn new<R: RandomSource<T>>(layers: Vec<usize>, learning_rate: T, rng: &mut R) -> (r: Result<
        Network<T, F>,
        NetError,
    >)
        ensures
            r is Ok <==> topology_ok(layers@) && learning_rate.is_positive_spec(),
            r is Err ==> r == Err::<Network<T, F>, NetError>(NetError::InvalidTopology),
            r is Ok ==> ({
                let n = r.unwrap();
                &&& n.wf()
                &&& n.layers@ == layers@
                &&& n.learning_rate == learning_rate
                &&& n.data@.len() == 0
            }),
    {
        if !learning_rate.is_positive() {
            return Err(NetError::InvalidTopology);
        }
        if layers.len() < 2 {
            return Err(NetError::InvalidTopology);
        }
        let mut i: usize = 0;
        while i < layers.len()
            invariant
                i <= layers@.len(),
                forall|k: int| 0 <= k < i ==> (#[trigger] layers@[k]) >= 1,
            decreases layers@.len() - i,
        {
            if layers[i] < 1 {
                return Err(NetError::InvalidTopology);
            }
            i += 1;
        }
        let mut weights: Vec<Matrix<T>> = Vec::new();
        let mut biases: Vec<Matrix<T>> = Vec::new();
        let mut i: usize = 0;
        while i < layers.len() - 1
            invariant
                topology_ok(layers@),
                i <= layers@.len() - 1,
                weights@.len() == i,
                biases@.len() == i,
                forall|k: int|
                    0 <= k < i ==> {
                        &&& (#[trigger] weights@[k]).wf()
                        &&& weights@[k].rows == layers@[k + 1]
                        &&& weights@[k].cols == layers@[k]
                    },
                forall|k: int|
                    0 <= k < i ==> {
                        &&& (#[trigger] biases@[k]).wf()
                        &&& biases@[k].rows == layers@[k + 1]
                        &&& biases@[k].cols == 1
                    },
            decreases layers@.len() - 1 - i,
        {
            weights.push(Matrix::random(layers[i + 1], layers[i], rng));
            biases.push(Matrix::random(layers[i + 1], 1, rng));
            i += 1;
        }
        Ok(
            Network {
                layers,
                weights,
                biases,
                data: Vec::new(),
                learning_rate,
                activation: PhantomData,
            },
        )
    }

    /// Takes a persistent snapshot of the network: its layers, learning
    /// rate, weights and biases, copied; the activation cache is not part
    /// of it.
    pub fn save(&self) -> (r: NetworkRecord<T>)
        requires
            self.wf(),
        ensures
            snapshot_matches(r, *self),
            record_wf(r),
    {
        let r = NetworkRecord {
            layers: clone_usize_vec(&self.layers),
            learning_rate: self.learning_rate,
            weights: clone_matrix_vec(&self.weights),
            biases: clone_matrix_vec(&self.biases),
        };
        proof {
            assert forall|i: int|
                0 <= i < r.weights@.len() implies {
                &&& (#[trigger] r.weights@[i]).wf()
                &&& r.weights@[i].rows == r.layers@[i + 1]
                &&& r.weights@[i].cols == r.layers@[i]
            } by {
                assert(matrix_eq(r.weights@[i], self.weights@[i]));
                lemma_matrix_eq_wf(self.weights@[i], r.weights@[i]);
            }
            assert forall|i: int|
                0 <= i < r.biases@.len() implies {
                &&& (#[trigger] r.biases@[i]).wf()
                &&& r.biases@[i].rows == r.layers@[i + 1]
                &&& r.biases@[i].cols == 1
            } by {
                assert(matrix_eq(r.biases@[i], self.biases@[i]));
                lemma_matrix_eq_wf(self.biases@[i], r.biases@[i]);
            }
        }
        r
    }

    /// Reconstructs a network from a snapshot, with an empty activation
    /// cache.  Succeeds exactly on well-formed snapshots; anything else
    /// is a corrupt record.
    pub fn load(record: NetworkRecord<T>) -> (r: Result<Network<T, F>, NetError>)
        ensures
            r is Ok <==> record_wf(record),
            r is Err ==> r == Err::<Network<T, F>, NetError>(NetError::CorruptRecord),
            r is Ok ==> ({
                let n = r.unwrap();
                &&& n.wf()
                &&& n.layers@ == record.layers@
                &&& n.learning_rate == record.learning_rate
                &&& matrices_eq(n.weights@, record.weights@)
                &&& matrices_eq(n.biases@, record.biases@)
                &&& n.data@.len() == 0
            }),
    {
        let NetworkRecord { layers, learning_rate, weights, biases } = record;
        if !learning_rate.is_positive() {
            return Err(NetError::CorruptRecord);
        }
        if layers.len() < 2 {
            return Err(NetError::CorruptRecord);
        }
        let mut i: usize = 0;
        while i < layers.len()
            invariant
                layers == record.layers,
                i <= layers@.len(),
                forall|k: int| 0 <= k < i ==> (#[trigger] layers@[k]) >= 1,
            decreases layers@.len() - i,
        {
            if layers[i] < 1 {
                proof {
                    assert(record.layers@[i as int] < 1);
                }
                return Err(NetError::CorruptRecord);
            }
            i += 1;
        }
        if weights.len() != layers.len() - 1 || biases.len() != layers.len() - 1 {
            return Err(NetError::CorruptRecord);
        }
        let mut i: usize = 0;
        while i < weights.len()
            invariant
                layers == record.layers,
                weights == record.weights,
                biases == record.biases,
                topology_ok(layers@),
                weights@.len() == layers@.len() - 1,
                biases@.len() == layers@.len() - 1,
                i <= weights@.len(),
                forall|k: int|
                    0 <= k < i ==> {
                        &&& (#[trigger] weights@[k]).wf()
                        &&& weights@[k].rows == layers@[k + 1]
                        &&& weights@[k].cols == layers@[k]
                    },
                forall|k: int|
                    0 <= k < i ==> {
                        &&& (#[trigger] biases@[k]).wf()
                        &&& biases@[k].rows == layers@[k + 1]
                        &&& biases@[k].cols == 1
                    },
            decreases weights@.len() - i,
        {
            let w = &weights[i];
            if !w.check_shape() || w.rows != layers[i + 1] || w.cols != layers[i] {
                proof {
                    assert(record.weights@[i as int] == weights@[i as int]);
                    assert(!record_wf(record));
                }
                return Err(NetError::CorruptRecord);
            }
            let b = &biases[i];
            if !b.check_shape() || b.rows != layers[i + 1] || b.cols != 1 {
                proof {
                    assert(record.biases@[i as int] == biases@[i as int]);
                    assert(!record_wf(record));
                }
                return Err(NetError::CorruptRecord);
            }
            i += 1;
        }
        proof {
            assert(record.weights@ == weights@);
            assert(record.biases@ == biases@);
            assert(record_wf(record));
        }
        Ok(
            Network {
                layers,
                weights,
                biases,
                data: Vec::new(),
                learning_rate,
                activation: PhantomData,
            },
        )
    }
}

impl<T: Scalar, F: ActivationFunc<T>> Network<T, F> {
    /// The forward pass: wraps the input as a column, caches it, then for
    /// each connection computes `activate(weights[i] · previous + biases[i])`,
    /// caching every intermediate column, and returns the last layer's
    /// values.  Overwriting the activation cache is the only mutation;
    /// layers, weights, biases and learning rate are left unchanged.
    pub fn feed_forward(&mut self, inputs: &Vec<T>) -> (r: Result<Vec<T>, NetError>)
        requires
            old(self).wf(),
        ensures
            final(self).wf(),
            final(self).layers == old(self).layers,
            final(self).weights == old(self).weights,
            final(self).biases == old(self).biases,
            final(self).learning_rate == old(self).learning_rate,
            r is Ok <==> inputs@.len() == old(self).layers@[0],
            r is Err ==> *final(self) == *old(self) && r == Err::<Vec<T>, NetError>(
                NetError::InputSizeMismatch,
            ),
            r is Ok ==> ({
                let wg = grids_of(final(self).weights@);
                let bg = grids_of(final(self).biases@);
                let last = final(self).layers@.len() - 1;
                &&& final(self).data@.len() == final(self).layers@.len()
                &&& forall|k: int|
                    0 <= k < final(self).data@.len() ==> {
                        &&& (#[trigger] final(self).data@[k]).rows == final(self).layers@[k]
                        &&& final(self).data@[k].cols == 1
                        &&& final(self).data@[k]@ == forward_column::<T, F>(wg, bg, inputs@, k)
                    }
                &&& r.unwrap()@ == column_to_seq(forward_column::<T, F>(wg, bg, inputs@, last))
                &&& r.unwrap()@.len() == final(self).layers@[last]
            }),
    {
        if inputs.len() != self.layers[0] {
            return Err(NetError::InputSizeMismatch);
        }
        let ghost wg = grids_of(self.weights@);
        let ghost bg = grids_of(self.biases@);
        let mut acts: Vec<Matrix<T>> = Vec::new();
        acts.push(Matrix::from_column(inputs));
        let count = self.layers.len() - 1;
        let mut k: usize = 0;
        while k < count
            invariant
                self.wf(),
                *self == *old(self),
                count == self.layers@.len() - 1,
                inputs@.len() == self.layers@[0],
                wg == grids_of(self.weights@),
                bg == grids_of(self.biases@),
                k <= count,
                acts@.len() == k + 1,
                forall|t: int|
                    0 <= t <= k ==> {
                        &&& (#[trigger] acts@[t]).wf()
                        &&& acts@[t].rows == self.layers@[t]
                        &&& acts@[t].cols == 1
                        &&& acts@[t]@ == forward_column::<T, F>(wg, bg, inputs@, t)
                    },
            decreases count - k,
        {
            let prod = match self.weights[k].matmul(&acts[k]) {
                Ok(m) => m,
                Err(_) => {
                    proof {
                        assert(false);
                    }
                    vstd::pervasive::unreached()
                },
            };
            let summed = match prod.add(&self.biases[k]) {
                Ok(m) => m,
                Err(_) => {
                    proof {
                        assert(false);
                    }
                    vstd::pervasive::unreached()
                },
            };
            let act_fn = |x: T| -> (y: T)
                ensures
                    y == F::function_spec(x),
                { F::function(x) };
            let activated = summed.map(act_fn);
            proof {
                assert(summed@ == add_grid(
                    mul_grid(wg[k as int], forward_column::<T, F>(wg, bg, inputs@, k as int)),
                    bg[k as int],
                ));
                assert forall|i2: int, j2: int|
                    0 <= i2 < summed.rows && 0 <= j2 < summed.cols implies activated@[i2][j2]
                    == F::function_spec(summed@[i2][j2]) by {
                    assert(call_ensures(act_fn, (summed@[i2][j2],), activated@[i2][j2]));
                }
                assert(activated@ =~~= activate_grid::<T, F>(summed@));
                assert(activated@ == forward_column::<T, F>(wg, bg, inputs@, k + 1));
            }
            acts.push(activated);
            k += 1;
        }
        let last_idx = self.layers.len() - 1;
        let n_out = self.layers[last_idx];
        let mut out: Vec<T> = Vec::new();
        let mut t: usize = 0;
        while t < n_out
            invariant
                acts@.len() == self.layers@.len(),
                last_idx == self.layers@.len() - 1,
                acts@[last_idx as int].wf(),
                acts@[last_idx as int].rows == n_out,
                acts@[last_idx as int].cols == 1,
                t <= n_out,
                out@.len() == t,
                forall|q: int| 0 <= q < t ==> out@[q] == acts@[last_idx as int]@[q][0],
            decreases n_out - t,
        {
            out.push(acts[last_idx].get(t, 0));
            t += 1;
        }
        proof {
            assert(out@ =~= column_to_seq(
                forward_column::<T, F>(wg, bg, inputs@, last_idx as int),
            ));
        }
        self.data = acts;
        Ok(out)
    }
}

impl<T: Scalar, F: ActivationFunc<T>> Network<T, F> {
    /// The backward pass: standard backpropagation with a squared-error
    /// delta rule, consuming the activation cache of the matching forward
    /// pass and updating every weight matrix and bias column in place,
    /// exactly once, as described by [`bp_state`].  The error is
    /// propagated through each connection's pre-update weights.
    ///
    /// Fails with `TargetSizeMismatch` when the target length is not the
    /// output layer size, and with `StaleOrMissingActivationCache` when
    /// the cache is absent or `outputs` does not read back the cached
    /// final activation column — the outputs cannot then come from a
    /// matching forward pass.  In either case the network is unchanged.
    pub fn back_propogate(&mut self, outputs: &Vec<T>, targets: &Vec<T>) -> (r: Result<
        (),
        NetError,
    >)
        requires
            old(self).wf(),
        ensures
            final(self).wf(),
            final(self).layers == old(self).layers,
            final(self).learning_rate == old(self).learning_rate,
            ({
                let n_out = old(self).layers@[old(self).layers@.len() - 1];
                &&& (r is Ok <==> targets@.len() == n_out && outputs@.len() == n_out && old(
                    self,
                ).data@.len() == old(self).layers@.len() && outputs_match_cache(
                    outputs@,
                    old(self).data@,
                    old(self).layers@.len() - 1,
                ))
                &&& (targets@.len() != n_out ==> r == Err::<(), NetError>(
                    NetError::TargetSizeMismatch,
                ))
                &&& (targets@.len() == n_out && r is Err ==> r == Err::<(), NetError>(
                    NetError::StaleOrMissingActivationCache,
                ))
            }),
            r is Err ==> *final(self) == *old(self),
            r is Ok ==> ({
                let st = bp_state::<T, F>(
                    grids_of(old(self).weights@),
                    grids_of(old(self).biases@),
                    grids_of(old(self).data@),
                    old(self).learning_rate,
                    outputs@,
                    targets@,
                    0,
                );
                &&& grids_of(final(self).weights@) == st.0
                &&& grids_of(final(self).biases@) == st.1
                &&& final(self).data@.len() == 0
            }),
    {
        let last_idx = self.layers.len() - 1;
        let n_out = self.layers[last_idx];
        if targets.len() != n_out {
            return Err(NetError::TargetSizeMismatch);
        }
        if outputs.len() != n_out || self.data.len() != self.layers.len() {
            return Err(NetError::StaleOrMissingActivationCache);
        }
        let mut t: usize = 0;
        while t < n_out
            invariant
                self.wf(),
                *self == *old(self),
                self.data@.len() == self.layers@.len(),
                last_idx == self.layers@.len() - 1,
                n_out == self.layers@[last_idx as int],
                outputs@.len() == n_out,
                targets@.len() == n_out,
                t <= n_out,
                forall|q: int|
                    0 <= q < t ==> outputs@[q] == (#[trigger] self.data@[last_idx as int]@[q])[0],
            decreases n_out - t,
        {
            if !outputs[t].equals(self.data[last_idx].get(t, 0)) {
                proof {
                    assert(outputs@[t as int] != old(self).data@[last_idx as int]@[t as int][0]);
                }
                return Err(NetError::StaleOrMissingActivationCache);
            }
            t += 1;
        }
        proof {
            assert(outputs_match_cache(outputs@, old(self).data@, last_idx as int));
        }
        let ghost w0 = grids_of(self.weights@);
        let ghost b0 = grids_of(self.biases@);
        let ghost ag = grids_of(self.data@);
        let ghost lr0 = self.learning_rate;
        let parsed = Matrix::from_column(outputs);
        let targets_m = Matrix::from_column(targets);
        let mut errors = match targets_m.sub(&parsed) {
            Ok(m) => m,
            Err(_) => {
                proof {
                    assert(false);
                }
                vstd::pervasive::unreached()
            },
        };
        let deriv_fn = |x: T| -> (y: T)
            ensures
                y == F::derivative_spec(x),
            { F::derivative(x) };
        let mut gradients = parsed.map(deriv_fn);
        proof {
            assert forall|i2: int, j2: int|
                0 <= i2 < parsed.rows && 0 <= j2 < parsed.cols implies gradients@[i2][j2]
                == F::derivative_spec(parsed@[i2][j2]) by {
                assert(call_ensures(deriv_fn, (parsed@[i2][j2],), gradients@[i2][j2]));
            }
            assert(gradients@ =~~= derive_grid::<T, F>(column_grid(outputs@)));
        }
        let mut i: usize = last_idx;
        while i > 0
            invariant
                old(self).wf(),
                self.wf(),
                self.layers == old(self).layers,
                self.data == old(self).data,
                self.learning_rate == old(self).learning_rate,
                w0 == grids_of(old(self).weights@),
                b0 == grids_of(old(self).biases@),
                ag == grids_of(old(self).data@),
                lr0 == old(self).learning_rate,
                old(self).data@.len() == old(self).layers@.len(),
                i <= last_idx,
                last_idx == self.layers@.len() - 1,
                forall|x: T| #[trigger] call_requires(deriv_fn, (x,)),
                forall|x: T, y: T|
                    #[trigger] call_ensures(deriv_fn, (x,), y) ==> y == F::derivative_spec(x),
                errors.wf(),
                errors.rows == self.layers@[i as int],
                errors.cols == 1,
                gradients.wf(),
                gradients.rows == self.layers@[i as int],
                gradients.cols == 1,
                ({
                    let st = bp_state::<T, F>(w0, b0, ag, lr0, outputs@, targets@, i as int);
                    &&& grids_of(self.weights@) == st.0
                    &&& grids_of(self.biases@) == st.1
                    &&& errors@ == st.2
                    &&& gradients@ == st.3
                }),
            decreases i,
        {
            let ghost st_prev = bp_state::<T, F>(w0, b0, ag, lr0, outputs@, targets@, i as int);
            let j = i - 1;
            let g1a = match gradients.multiply(&errors) {
                Ok(m) => m,
                Err(_) => {
                    proof {
                        assert(false);
                    }
                    vstd::pervasive::unreached()
                },
            };
            let lr = self.learning_rate;
            let scale_fn = |x: T| -> (y: T)
                ensures
                    y == x.mul_spec(lr),
                { x.mul(lr) };
            let g1 = g1a.map(scale_fn);
            proof {
                assert forall|i2: int, j2: int|
                    0 <= i2 < g1a.rows && 0 <= j2 < g1a.cols implies g1@[i2][j2]
                    == g1a@[i2][j2].mul_spec(lr0) by {
                    assert(call_ensures(scale_fn, (g1a@[i2][j2],), g1@[i2][j2]));
                }
                assert(g1@ =~~= scale_grid(g1a@, lr0));
            }
            let data_t = self.data[j].transpose();
            let outer = match g1.matmul(&data_t) {
                Ok(m) => m,
                Err(_) => {
                    proof {
                        assert(false);
                    }
                    vstd::pervasive::unreached()
                },
            };
            let new_w = match self.weights[j].add(&outer) {
                Ok(m) => m,
                Err(_) => {
                    proof {
                        assert(false);
                    }
                    vstd::pervasive::unreached()
                },
            };
            let w_t = self.weights[j].transpose();
            let e_next = match w_t.matmul(&errors) {
                Ok(m) => m,
                Err(_) => {
                    proof {
                        assert(false);
                    }
                    vstd::pervasive::unreached()
                },
            };
            let new_b = match self.biases[j].add(&g1) {
                Ok(m) => m,
                Err(_) => {
                    proof {
                        assert(false);
                    }
                    vstd::pervasive::unreached()
                },
            };
            let new_g = self.data[j].map(deriv_fn);
            proof {
                assert forall|i2: int, j2: int|
                    0 <= i2 < self.data@[j as int].rows && 0 <= j2 < self.data@[j as int].cols
                    implies new_g@[i2][j2] == F::derivative_spec(self.data@[j as int]@[i2][j2]) by {
                    assert(call_ensures(
                        deriv_fn,
                        (self.data@[j as int]@[i2][j2],),
                        new_g@[i2][j2],
                    ));
                }
                assert(new_g@ =~~= derive_grid::<T, F>(ag[j as int]));
            }
            let ghost weights_before = self.weights@;
            let ghost biases_before = self.biases@;
            self.weights[j] = new_w;
            self.biases[j] = new_b;
            proof {
                assert(grids_of(self.weights@) =~= grids_of(weights_before).update(
                    j as int,
                    new_w@,
                ));
                assert(grids_of(self.biases@) =~= grids_of(biases_before).update(
                    j as int,
                    new_b@,
                ));
                let st = bp_state::<T, F>(w0, b0, ag, lr0, outputs@, targets@, j as int);
                assert(st.0 == st_prev.0.update(
                    j as int,
                    add_grid(
                        st_prev.0[j as int],
                        mul_grid(scale_grid(hadamard_grid(st_prev.3, st_prev.2), lr0),
                        transpose_grid(ag[j as int])),
                    ),
                ));
                assert(grids_of(self.weights@) == st.0);
                assert(grids_of(self.biases@) == st.1);
                assert(e_next@ == st.2);
                assert(new_g@ == st.3);
            }
            errors = e_next;
            gradients = new_g;
            i = j;
        }
        self.data = Vec::new();
        Ok(())
    }
}

/// Scans a training batch for the first size flaw, per [`batch_flaw`].
fn check_batch<T: Scalar>(
    inputs: &Vec<Vec<T>>,
    targets: &Vec<Vec<T>>,
    n_in: usize,
    n_out: usize,
) -> (r: Option<NetError>)
    requires
        inputs@.len() == targets@.len(),
    ensures
        r == batch_flaw(seqs_of(inputs@), seqs_of(targets@), n_in as int, n_out as int),
        r is None ==> forall|t: int|
            0 <= t < inputs@.len() ==> (#[trigger] inputs@[t])@.len() == n_in && targets@[t]@.len()
                == n_out,
{
    let ghost ins = seqs_of(inputs@);
    let ghost tgts = seqs_of(targets@);
    proof {
        assert(ins.skip(0) =~= ins);
        assert(tgts.skip(0) =~= tgts);
    }
    let mut v: usize = 0;
    while v < inputs.len()
        invariant
            inputs@.len() == targets@.len(),
            ins == seqs_of(inputs@),
            tgts == seqs_of(targets@),
            v <= inputs@.len(),
            batch_flaw(ins, tgts, n_in as int, n_out as int) == batch_flaw(
                ins.skip(v as int),
                tgts.skip(v as int),
                n_in as int,
                n_out as int,
            ),
            forall|t: int|
                0 <= t < v ==> (#[trigger] inputs@[t])@.len() == n_in && targets@[t]@.len()
                    == n_out,
        decreases inputs@.len() - v,
    {
        proof {
            assert(ins.skip(v as int)[0] == ins[v as int]);
            assert(tgts.skip(v as int)[0] == tgts[v as int]);
        }
        if inputs[v].len() != n_in {
            return Some(NetError::InputSizeMismatch);
        }
        if targets[v].len() != n_out {
            return Some(NetError::TargetSizeMismatch);
        }
        proof {
            assert(ins.skip(v as int).skip(1) =~= ins.skip(v as int + 1));
            assert(tgts.skip(v as int).skip(1) =~= tgts.skip(v as int + 1));
            assert(ins[v as int].len() == n_in && tgts[v as int].len() == n_out);
            assert(inputs@[v as int]@.len() == n_in);
            assert(targets@[v as int]@.len() == n_out);
            assert forall|t: int|
                0 <= t < v + 1 implies (#[trigger] inputs@[t])@.len() == n_in
                && targets@[t]@.len() == n_out by {}
            assert(batch_flaw(ins.skip(v as int), tgts.skip(v as int), n_in as int, n_out as int)
                == batch_flaw(
                ins.skip(v as int + 1),
                tgts.skip(v as int + 1),
                n_in as int,
                n_out as int,
            ));
        }
        v += 1;
    }
    proof {
        assert(ins.skip(inputs@.len() as int) =~= Seq::<Seq<T>>::empty());
        assert(tgts.skip(targets@.len() as int) =~= Seq::<Seq<T>>::empty());
    }
    None
}

impl<T: Scalar, F: ActivationFunc<T>> Network<T, F> {
    /// One full epoch: a forward pass followed by a backward pass on every
    /// paired example of the batch, in order.  The whole batch is checked
    /// for size flaws up front, so a flawed batch leaves the network
    /// completely unchanged.  This is also the step API for callers that
    /// want to act — report progress, stop early — between epochs.
    pub fn train_epoch(&mut self, inputs: &Vec<Vec<T>>, targets: &Vec<Vec<T>>) -> (r: Result<
        (),
        NetError,
    >)
        requires
            old(self).wf(),
            inputs@.len() == targets@.len(),
        ensures
            final(self).wf(),
            final(self).layers == old(self).layers,
            final(self).learning_rate == old(self).learning_rate,
            ({
                let flaw = batch_flaw(
                    seqs_of(inputs@),
                    seqs_of(targets@),
                    old(self).layers@[0] as int,
                    old(self).layers@[old(self).layers@.len() - 1] as int,
                );
                &&& (r is Ok <==> flaw is None)
                &&& (flaw is Some ==> r == Err::<(), NetError>(flaw.unwrap()))
            }),
            r is Err ==> *final(self) == *old(self),
            r is Ok ==> ({
                let st = train_examples::<T, F>(
                    grids_of(old(self).weights@),
                    grids_of(old(self).biases@),
                    old(self).learning_rate,
                    seqs_of(inputs@),
                    seqs_of(targets@),
                    old(self).layers@.len() as int,
                    inputs@.len() as int,
                );
                &&& grids_of(final(self).weights@) == st.0
                &&& grids_of(final(self).biases@) == st.1
            }),
            r is Ok && inputs@.len() > 0 ==> final(self).data@.len() == 0,
            r is Ok && inputs@.len() == 0 ==> *final(self) == *old(self),
    {
        let last_idx = self.layers.len() - 1;
        let n_in = self.layers[0];
        let n_out = self.layers[last_idx];
        match check_batch(inputs, targets, n_in, n_out) {
            Some(flaw) => {
                return Err(flaw);
            },
            None => {},
        }
        let ghost we = grids_of(self.weights@);
        let ghost be = grids_of(self.biases@);
        let ghost ins = seqs_of(inputs@);
        let ghost tgts = seqs_of(targets@);
        let ghost lr0 = self.learning_rate;
        let ghost ll = self.layers@.len() as int;
        let mut j: usize = 0;
        while j < inputs.len()
            invariant
                self.wf(),
                self.layers == old(self).layers,
                self.learning_rate == old(self).learning_rate,
                inputs@.len() == targets@.len(),
                we == grids_of(old(self).weights@),
                be == grids_of(old(self).biases@),
                ins == seqs_of(inputs@),
                tgts == seqs_of(targets@),
                lr0 == old(self).learning_rate,
                ll == self.layers@.len() as int,
                n_in == self.layers@[0],
                n_out == self.layers@[ll - 1],
                last_idx == ll - 1,
                forall|t: int|
                    0 <= t < inputs@.len() ==> (#[trigger] inputs@[t])@.len() == n_in
                        && targets@[t]@.len() == n_out,
                j <= inputs@.len(),
                ({
                    let st = train_examples::<T, F>(we, be, lr0, ins, tgts, ll, j as int);
                    &&& grids_of(self.weights@) == st.0
                    &&& grids_of(self.biases@) == st.1
                }),
                j > 0 ==> self.data@.len() == 0,
                j == 0 ==> *self == *old(self),
            decreases inputs@.len() - j,
        {
            let ghost w_cur = grids_of(self.weights@);
            let ghost b_cur = grids_of(self.biases@);
            let outputs = match self.feed_forward(&inputs[j]) {
                Ok(o) => o,
                Err(_) => {
                    proof {
                        assert(false);
                    }
                    vstd::pervasive::unreached()
                },
            };
            proof {
                assert(grids_of(self.data@) =~= forward_acts::<T, F>(
                    w_cur,
                    b_cur,
                    ins[j as int],
                    ll,
                ));
                assert forall|q: int|
                    0 <= q < outputs@.len() implies outputs@[q] == (
                #[trigger] self.data@[ll - 1]@[q])[0] by {
                    assert(self.data@[ll - 1]@ == forward_column::<T, F>(
                        w_cur,
                        b_cur,
                        ins[j as int],
                        ll - 1,
                    ));
                }
                assert(outputs_match_cache(outputs@, self.data@, ll - 1));
            }
            match self.back_propogate(&outputs, &targets[j]) {
                Ok(_) => {},
                Err(_) => {
                    proof {
                        assert(false);
                    }
                    vstd::pervasive::unreached()
                },
            }
            proof {
                let st_j1 = train_examples::<T, F>(we, be, lr0, ins, tgts, ll, j as int + 1);
                assert(st_j1 == train_step::<T, F>(w_cur, b_cur, lr0, ins[j as int], tgts[j as int], ll));
                assert(grids_of(self.weights@) == st_j1.0);
                assert(grids_of(self.biases@) == st_j1.1);
            }
            j += 1;
        }
        Ok(())
    }

    /// Trains for exactly `epochs` full passes over the batch, each epoch
    /// visiting the examples in order — no shuffling, no early stopping.
    /// The batch is checked for size flaws up front, so a flawed batch
    /// leaves the network completely unchanged.
    pub fn train(&mut self, inputs: &Vec<Vec<T>>, targets: &Vec<Vec<T>>, epochs: u16) -> (r:
        Result<(), NetError>)
        requires
            old(self).wf(),
            inputs@.len() == targets@.len(),
        ensures
            final(self).wf(),
            final(self).layers == old(self).layers,
            final(self).learning_rate == old(self).learning_rate,
            ({
                let flaw = batch_flaw(
                    seqs_of(inputs@),
                    seqs_of(targets@),
                    old(self).layers@[0] as int,
                    old(self).layers@[old(self).layers@.len() - 1] as int,
                );
                &&& (r is Ok <==> flaw is None)
                &&& (flaw is Some ==> r == Err::<(), NetError>(flaw.unwrap()))
            }),
            r is Err ==> *final(self) == *old(self),
            r is Ok ==> ({
                let st = train_epochs::<T, F>(
                    grids_of(old(self).weights@),
                    grids_of(old(self).biases@),
                    old(self).learning_rate,
                    seqs_of(inputs@),
                    seqs_of(targets@),
                    old(self).layers@.len() as int,
                    epochs as int,
                );
                &&& grids_of(final(self).weights@) == st.0
                &&& grids_of(final(self).biases@) == st.1
            }),
            r is Ok && epochs > 0 && inputs@.len() > 0 ==> final(self).data@.len() == 0,
            r is Ok && (epochs == 0 || inputs@.len() == 0) ==> *final(self) == *old(self),
    {
        let last_idx = self.layers.len() - 1;
        let n_in = self.layers[0];
        let n_out = self.layers[last_idx];
        match check_batch(inputs, targets, n_in, n_out) {
            Some(flaw) => {
                return Err(flaw);
            },
            None => {},
        }
        let ghost w00 = grids_of(self.weights@);
        let ghost b00 = grids_of(self.biases@);
        let ghost ins = seqs_of(inputs@);
        let ghost tgts = seqs_of(targets@);
        let ghost lr0 = self.learning_rate;
        let ghost ll = self.layers@.len() as int;
        let mut e: u16 = 0;
        while e < epochs
            invariant
                self.wf(),
                self.layers == old(self).layers,
                self.learning_rate == old(self).learning_rate,
                inputs@.len() == targets@.len(),
                w00 == grids_of(old(self).weights@),
                b00 == grids_of(old(self).biases@),
                ins == seqs_of(inputs@),
                tgts == seqs_of(targets@),
                lr0 == old(self).learning_rate,
                ll == self.layers@.len() as int,
                n_in == self.layers@[0],
                n_out == self.layers@[ll - 1],
                last_idx == ll - 1,
                batch_flaw(ins, tgts, n_in as int, n_out as int) is None,
                e <= epochs,
                ({
                    let st = train_epochs::<T, F>(w00, b00, lr0, ins, tgts, ll, e as int);
                    &&& grids_of(self.weights@) == st.0
                    &&& grids_of(self.biases@) == st.1
                }),
                (e == 0 || inputs@.len() == 0) ==> *self == *old(self),
                (e > 0 && inputs@.len() > 0) ==> self.data@.len() == 0,
            decreases epochs - e,
        {
            let ghost wpre = grids_of(self.weights@);
            let ghost bpre = grids_of(self.biases@);
            match self.train_epoch(inputs, targets) {
                Ok(_) => {},
                Err(_) => {
                    proof {
                        assert(false);
                    }
                    vstd::pervasive::unreached()
                },
            }
            proof {
                let st_e1 = train_epochs::<T, F>(w00, b00, lr0, ins, tgts, ll, e as int + 1);
                assert(st_e1 == train_examples::<T, F>(wpre, bpre, lr0, ins, tgts, ll, ins.len() as int));
                assert(grids_of(self.weights@) == st_e1.0);
                assert(grids_of(self.biases@) == st_e1.1);
            }
            e += 1;
        }
        Ok(())
    }
}

// ---------------------------------------------------------------------------
// Laws
// ---------------------------------------------------------------------------

/// Round trip of persistence: a snapshot of a well-formed network is a
/// well-formed record — so reconstruction from it succeeds — and any
/// network reconstructed from that snapshot has exactly the layers,
/// learning rate, weights and biases of the original.
pub proof fn lemma_save_load_round_trip<T: Scalar, F: ActivationFunc<T>>(
    n: Network<T, F>,
    r: NetworkRecord<T>,
    m: Network<T, F>,
)
    requires
        n.wf(),
        snapshot_matches(r, n),
        m.layers@ == r.layers@,
        m.learning_rate == r.learning_rate,
        matrices_eq(m.weights@, r.weights@),
        matrices_eq(m.biases@, r.biases@),
    ensures
        record_wf(r),
        m.layers@ == n.layers@,
        m.learning_rate == n.learning_rate,
        matrices_eq(m.weights@, n.weights@),
        matrices_eq(m.biases@, n.biases@),
{
    assert forall|i: int|
        0 <= i < r.weights@.len() implies {
        &&& (#[trigger] r.weights@[i]).wf()
        &&& r.weights@[i].rows == r.layers@[i + 1]
        &&& r.weights@[i].cols == r.layers@[i]
    } by {
        assert(matrix_eq(r.weights@[i], n.weights@[i]));
        lemma_matrix_eq_wf(n.weights@[i], r.weights@[i]);
    }
    assert forall|i: int|
        0 <= i < r.biases@.len() implies {
        &&& (#[trigger] r.biases@[i]).wf()
        &&& r.biases@[i].rows == r.layers@[i + 1]
        &&& r.biases@[i].cols == 1
    } by {
        assert(matrix_eq(r.biases@[i], n.biases@[i]));
        lemma_matrix_eq_wf(n.biases@[i], r.biases@[i]);
    }
    assert forall|i: int| 0 <= i < m.weights@.len() implies matrix_eq(
        #[trigger] m.weights@[i],
        #[trigger] n.weights@[i],
    ) by {
        assert(matrix_eq(m.weights@[i], r.weights@[i]));
        assert(matrix_eq(r.weights@[i], n.weights@[i]));
    }
    assert forall|i: int| 0 <= i < m.biases@.len() implies matrix_eq(
        #[trigger] m.biases@[i],
        #[trigger] n.biases@[i],
    ) by {
        assert(matrix_eq(m.biases@[i], r.biases@[i]));
        assert(matrix_eq(r.biases@[i], n.biases@[i]));
    }
}

/// The backward pass never adds or removes a weight matrix or bias
/// column: every state of [`bp_state`] has one of each per connection.
proof fn lemma_bp_state_len<T: Scalar, F: ActivationFunc<T>>(
    w0: Seq<Seq<Seq<T>>>,
    b0: Seq<Seq<Seq<T>>>,
    acts: Seq<Seq<Seq<T>>>,
    lr: T,
    outputs: Seq<T>,
    targets: Seq<T>,
    i: int,
)
    requires
        w0.len() == b0.len(),
    ensures
        bp_state::<T, F>(w0, b0, acts, lr, outputs, targets, i).0.len() == w0.len(),
        bp_state::<T, F>(w0, b0, acts, lr, outputs, targets, i).1.len() == b0.len(),
    decreases w0.len() - i,
{
    if 0 <= i < w0.len() {
        lemma_bp_state_len::<T, F>(w0, b0, acts, lr, outputs, targets, i + 1);
    }
}

/// Each backward step adds a same-shape delta to that step's weight
/// matrix and bias column — `weights[i]` gains the outer product of the
/// scaled gradient with the cached activation of layer `i`, `biases[i]`
/// gains the scaled gradient itself — so for a scalar whose subtraction
/// cancels its addition, subtracting the same delta again returns the
/// pre-update parameters exactly.
pub proof fn lemma_backward_update_reversible<T: Scalar, F: ActivationFunc<T>>(
    w0: Seq<Seq<Seq<T>>>,
    b0: Seq<Seq<Seq<T>>>,
    acts: Seq<Seq<Seq<T>>>,
    lr: T,
    outputs: Seq<T>,
    targets: Seq<T>,
    i: int,
    rows: int,
    cols: int,
)
    requires
        0 <= i < w0.len(),
        w0.len() == b0.len(),
        forall|x: T, y: T| (#[trigger] x.add_spec(y)).sub_spec(y) == x,
        is_grid(bp_state::<T, F>(w0, b0, acts, lr, outputs, targets, i + 1).0[i], rows, cols),
        is_grid(bp_state::<T, F>(w0, b0, acts, lr, outputs, targets, i + 1).1[i], rows, 1),
    ensures
        ({
            let st_prev = bp_state::<T, F>(w0, b0, acts, lr, outputs, targets, i + 1);
            let st = bp_state::<T, F>(w0, b0, acts, lr, outputs, targets, i);
            let g1 = scale_grid(hadamard_grid(st_prev.3, st_prev.2), lr);
            let delta = mul_grid(g1, transpose_grid(acts[i]));
            &&& st.0[i] == add_grid(st_prev.0[i], delta)
            &&& sub_grid(st.0[i], delta) == st_prev.0[i]
            &&& st.1[i] == add_grid(st_prev.1[i], g1)
            &&& sub_grid(st.1[i], g1) == st_prev.1[i]
        }),
{
    lemma_bp_state_len::<T, F>(w0, b0, acts, lr, outputs, targets, i + 1);
    let st_prev = bp_state::<T, F>(w0, b0, acts, lr, outputs, targets, i + 1);
    let g1 = scale_grid(hadamard_grid(st_prev.3, st_prev.2), lr);
    let delta = mul_grid(g1, transpose_grid(acts[i]));
    let w = st_prev.0[i];
    let b = st_prev.1[i];
    assert forall|r: int| 0 <= r < rows implies #[trigger] sub_grid(add_grid(w, delta), delta)[r]
        =~= w[r] by {
        assert(w[0].len() == cols);
        assert(w[r].len() == cols);
        assert forall|c: int| 0 <= c < cols implies #[trigger] sub_grid(
            add_grid(w, delta),
            delta,
        )[r][c] == w[r][c] by {
            assert((w[r][c].add_spec(delta[r][c])).sub_spec(delta[r][c]) == w[r][c]);
        }
    }
    assert(sub_grid(add_grid(w, delta), delta) =~= w);
    assert forall|r: int| 0 <= r < rows implies #[trigger] sub_grid(add_grid(b, g1), g1)[r] =~= b[r]
        by {
        assert(b[0].len() == 1);
        assert(b[r].len() == 1);
        assert((b[r][0].add_spec(g1[r][0])).sub_spec(g1[r][0]) == b[r][0]);
    }
    assert(sub_grid(add_grid(b, g1), g1) =~= b);
}

/// Determinism of inference: the forward pass is a mathematical function
/// of the parameters and the input alone, so two networks with equal
/// layers, weights and biases — in particular one network before and
/// after a forward pass, which leaves all three unchanged — produce the
/// same activation columns and the same output on the same input.
pub proof fn lemma_feed_forward_deterministic<T: Scalar, F: ActivationFunc<T>>(
    n1: Network<T, F>,
    n2: Network<T, F>,
    input: Seq<T>,
    k: int,
)
    requires
        grids_of(n1.weights@) == grids_of(n2.weights@),
        grids_of(n1.biases@) == grids_of(n2.biases@),
    ensures
        forward_column::<T, F>(grids_of(n1.weights@), grids_of(n1.biases@), input, k)
            == forward_column::<T, F>(grids_of(n2.weights@), grids_of(n2.biases@), input, k),
        column_to_seq(forward_column::<T, F>(grids_of(n1.weights@), grids_of(n1.biases@), input, k))
            == column_to_seq(
            forward_column::<T, F>(grids_of(n2.weights@), grids_of(n2.biases@), input, k),
        ),
{
}

} // verus!

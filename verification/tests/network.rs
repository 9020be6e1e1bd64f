use phenotype::neural_network::activation_function::ActivationFunction;
use phenotype::neural_network::layer::Layer;
use phenotype::neural_network::layer_topology::LayerTopology;
use phenotype::neural_network::matrix::Matrix;
use phenotype::neural_network::network::Network;

fn bits(values: &[f32]) -> Vec<u32> {
    values.iter().map(|v| v.to_bits()).collect()
}

#[test]
fn init_from_random() {
    let weights = Matrix::new(5, 2, bits(&[0.1, 0.2, 0.3, 0.4, 0.5, 0.6, 0.7, 0.8, 0.9, 1.0]));
    let layer = Layer::random(2, 5, ActivationFunction::Linear, weights);
    assert_eq!(layer.n_inputs(), 2);
    assert_eq!(layer.n_neurons(), 5);
    assert_eq!(layer.activation_function, ActivationFunction::Linear);
    assert_eq!(layer.weights.nrows(), 5);
    assert_eq!(layer.weights.ncols(), 2);
    assert_eq!(layer.biases.len(), 5);
}

#[test]
fn to_topology() {
    let weights = Matrix::new(1, 6, bits(&[0.1, 0.2, 0.3, 0.4, 0.5, 0.6]));
    let layer = Layer::random(6, 1, ActivationFunction::Relu, weights);
    let topology = layer.topology();
    let expected_topology = LayerTopology::new(1, ActivationFunction::Relu);
    assert_eq!(topology, expected_topology);
}

#[test]
fn random_layer_starts_with_zero_biases() {
    let weights = Matrix::new(2, 3, bits(&[0.1, 0.2, 0.3, 0.4, 0.5, 0.6]));
    let layer = Layer::random(3, 2, ActivationFunction::Sigmoid, weights);
    assert_eq!(layer.biases, vec![0.0f32.to_bits(), 0.0f32.to_bits()]);
}

#[test]
fn matrix_entries_are_row_major() {
    let m = Matrix::new(2, 3, vec![10, 11, 12, 20, 21, 22]);
    assert_eq!(m.nrows(), 2);
    assert_eq!(m.ncols(), 3);
    assert_eq!(m.get(0, 0), 10);
    assert_eq!(m.get(0, 2), 12);
    assert_eq!(m.get(1, 0), 20);
    assert_eq!(m.get(1, 2), 22);
}

#[test]
fn network_from_compatible_layers() {
    let first = Layer::new(
        Matrix::new(3, 2, bits(&[0.1, 0.2, 0.3, 0.4, 0.5, 0.6])),
        bits(&[0.7, 0.8, 0.9]),
        ActivationFunction::Relu,
    );
    let second = Layer::new(
        Matrix::new(2, 3, bits(&[1.1, 1.2, 1.3, 1.4, 1.5, 1.6])),
        bits(&[1.7, 1.8]),
        ActivationFunction::Softmax,
    );
    let network = Network::new(vec![first, second]);
    assert_eq!(network.input_size(), 2);
    assert_eq!(network.output_size(), 2);
    let topology = network.topology();
    assert_eq!(
        topology,
        vec![
            LayerTopology::new(2, ActivationFunction::Linear),
            LayerTopology::new(3, ActivationFunction::Relu),
            LayerTopology::new(2, ActivationFunction::Softmax),
        ]
    );
}

#[test]
fn genome_layout_is_weights_then_biases_per_layer() {
    let first = Layer::new(
        Matrix::new(2, 2, bits(&[1.0, 2.0, 3.0, 4.0])),
        bits(&[5.0, 6.0]),
        ActivationFunction::Linear,
    );
    let second = Layer::new(
        Matrix::new(1, 2, bits(&[7.0, 8.0])),
        bits(&[9.0]),
        ActivationFunction::Sigmoid,
    );
    let network = Network::new(vec![first, second]);
    let genome = network.to_genome();
    assert_eq!(genome, bits(&[1.0, 2.0, 3.0, 4.0, 5.0, 6.0, 7.0, 8.0, 9.0]));
}

#[test]
fn genome_round_trip_reproduces_the_network() {
    let first = Layer::new(
        Matrix::new(3, 2, bits(&[0.25, -0.5, 1.5, 2.0, -3.0, 0.125])),
        bits(&[0.0, 4.5, -1.25]),
        ActivationFunction::Relu,
    );
    let second = Layer::new(
        Matrix::new(2, 3, bits(&[5.0, -6.0, 7.0, 8.5, 9.0, -10.0])),
        bits(&[11.0, -12.5]),
        ActivationFunction::Softmax,
    );
    let network = Network::new(vec![first, second]);
    let restored = Network::from_genome(network.to_genome(), &network.topology());
    assert_eq!(restored, network);
}

#[test]
fn from_genome_slices_in_layer_order() {
    let topology = vec![
        LayerTopology::new(2, ActivationFunction::Linear),
        LayerTopology::new(2, ActivationFunction::Linear),
        LayerTopology::new(1, ActivationFunction::Sigmoid),
    ];
    let genome = bits(&[1.0, 2.0, 3.0, 4.0, 5.0, 6.0, 7.0, 8.0, 9.0]);
    let network = Network::from_genome(genome, &topology);
    assert_eq!(network.layers.len(), 2);
    assert_eq!(network.layers[0].weights.nrows(), 2);
    assert_eq!(network.layers[0].weights.ncols(), 2);
    assert_eq!(network.layers[0].weights.data, bits(&[1.0, 2.0, 3.0, 4.0]));
    assert_eq!(network.layers[0].biases, bits(&[5.0, 6.0]));
    assert_eq!(network.layers[0].activation_function, ActivationFunction::Linear);
    assert_eq!(network.layers[1].weights.data, bits(&[7.0, 8.0]));
    assert_eq!(network.layers[1].biases, bits(&[9.0]));
    assert_eq!(network.layers[1].activation_function, ActivationFunction::Sigmoid);
}

#[test]
fn from_genome_leaves_trailing_entries_unconsumed() {
    let topology = vec![
        LayerTopology::new(1, ActivationFunction::Linear),
        LayerTopology::new(1, ActivationFunction::Relu),
    ];
    let genome = bits(&[1.5, 2.5, 3.5, 4.5]);
    let network = Network::from_genome(genome, &topology);
    assert_eq!(network.layers.len(), 1);
    assert_eq!(network.to_genome(), bits(&[1.5, 2.5]));
}

#[test]
fn random_network_matches_requested_topology() {
    let topologies = vec![
        LayerTopology::new(2, ActivationFunction::Linear),
        LayerTopology::new(3, ActivationFunction::Relu),
        LayerTopology::new(1, ActivationFunction::Sigmoid),
    ];
    let sampled = vec![
        Matrix::new(3, 2, bits(&[0.1, 0.2, 0.3, 0.4, 0.5, 0.6])),
        Matrix::new(1, 3, bits(&[0.7, 0.8, 0.9])),
    ];
    let network = Network::random(&topologies, sampled.clone());
    assert_eq!(network.topology(), topologies);
    assert_eq!(network.layers.len(), 2);
    assert_eq!(network.layers[0].weights, sampled[0]);
    assert_eq!(network.layers[1].weights, sampled[1]);
    assert_eq!(network.layers[0].biases, vec![0u32; 3]);
    assert_eq!(network.layers[1].biases, vec![0u32; 1]);
}

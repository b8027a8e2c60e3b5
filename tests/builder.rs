use libfornix_neuralnetwork::{
    NeuralNetworkBuilder, NeuronModel, OutputNeuron, TrivialNeuron, WeightSource,
};

/// Hands out weights that step through [-1, 1] and counts the draws.
struct SteppingWeights {
    next: f64,
    draws: usize,
    history: Vec<f64>,
}

fn stepping(next: f64) -> SteppingWeights {
    SteppingWeights { next, draws: 0, history: Vec::new() }
}

impl WeightSource<f64> for SteppingWeights {
    fn draws(&self) -> usize {
        self.draws
    }

    fn produced(&self, n: usize) -> f64 {
        self.history[n]
    }

    fn generate_weight(&mut self) -> f64 {
        let w = self.next;
        self.next = if self.next >= 1.0 { -1.0 } else { self.next + 0.25 };
        self.draws += 1;
        self.history.push(w);
        w
    }
}

fn trivial(bias: f64) -> NeuronModel<f64> {
    NeuronModel::Trivial(TrivialNeuron::create_initial(bias))
}

#[test]
fn test_directional() {
    let mut rng = stepping(-1.0);

    // Should create a neural network with 2 layers [3, 2]
    let network = NeuralNetworkBuilder::new(3, 1)
            .add_neuron(trivial(0.3))
            .add_neuron(trivial(-0.7))
            .add_neuron(trivial(0.1))
        .next_layer()
            .add_neuron(trivial(0.5))
            .add_neuron(trivial(-0.2))
        .create_directional(&mut rng);

    // test layout

    // should have 2 layers
    assert_eq!(4, network.layers.len());
    // first layer should have 3 neurons
    assert_eq!(3, network.layers[1].neurons.len());
    // second layer should have 2 neurons
    assert_eq!(2, network.layers[2].neurons.len());

    // test connections input -> layer 1
    assert_eq!(3, network.layers[0].neurons[0].connections.len());
    assert_eq!((1, 0), network.layers[0].neurons[0].connections[0].link);
    assert_eq!((1, 1), network.layers[0].neurons[0].connections[1].link);
    assert_eq!((1, 2), network.layers[0].neurons[0].connections[2].link);
    assert_eq!(3, network.layers[0].neurons[1].connections.len());
    assert_eq!((1, 0), network.layers[0].neurons[1].connections[0].link);
    assert_eq!((1, 1), network.layers[0].neurons[1].connections[1].link);
    assert_eq!((1, 2), network.layers[0].neurons[1].connections[2].link);
    assert_eq!(3, network.layers[0].neurons[2].connections.len());
    assert_eq!((1, 0), network.layers[0].neurons[2].connections[0].link);
    assert_eq!((1, 1), network.layers[0].neurons[2].connections[1].link);
    assert_eq!((1, 2), network.layers[0].neurons[2].connections[2].link);

    // test connections layer 1 -> layer 2
    assert_eq!(2, network.layers[1].neurons[0].connections.len());
    assert_eq!((2, 0), network.layers[1].neurons[0].connections[0].link);
    assert_eq!((2, 1), network.layers[1].neurons[0].connections[1].link);
    assert_eq!(2, network.layers[1].neurons[1].connections.len());
    assert_eq!((2, 0), network.layers[1].neurons[1].connections[0].link);
    assert_eq!((2, 1), network.layers[1].neurons[1].connections[1].link);
    assert_eq!(2, network.layers[1].neurons[2].connections.len());
    assert_eq!((2, 0), network.layers[1].neurons[2].connections[0].link);
    assert_eq!((2, 1), network.layers[1].neurons[2].connections[1].link);

    // test connections layer 2 -> output
    assert_eq!(1, network.layers[2].neurons[0].connections.len());
    assert_eq!((3, 0), network.layers[2].neurons[0].connections[0].link);
    assert_eq!(1, network.layers[2].neurons[1].connections.len());
    assert_eq!((3, 0), network.layers[2].neurons[1].connections[0].link);
}

#[test]
fn test_execute() {
    let mut rng = stepping(0.5);

    // create a tested neural network
    let network = NeuralNetworkBuilder::new(3, 1)
            .add_neuron(trivial(0.3))
            .add_neuron(trivial(-0.7))
            .add_neuron(trivial(0.1))
        .next_layer()
            .add_neuron(trivial(0.5))
            .add_neuron(trivial(-0.2))
        .create_directional(&mut rng);

    // create inputs
    let mut network = network;
    assert!(network.load_inputs(&vec![vec![1.0, 2.0], vec![3.0]]));
}

#[test]
fn directional_three_layer_sizes() {
    let mut rng = stepping(-1.0);
    let network = NeuralNetworkBuilder::<f64>::new(4, 2)
        .add_neuron(trivial(0.0))
        .add_neuron(trivial(0.0))
        .add_neuron(trivial(0.0))
        .next_layer()
        .create_directional(&mut rng);
    let sizes: Vec<usize> = network.layers.iter().map(|l| l.neurons.len()).collect();
    assert_eq!(vec![4, 3, 2], sizes);
    // 4 * 3 + 3 * 2 weights were drawn
    assert_eq!(18, rng.draws);
    assert!(network.layers[0].neurons.iter().all(|n| matches!(n.model, NeuronModel::Input(_))));
    assert!(network.layers[2].neurons.iter().all(|n| matches!(n.model, NeuronModel::Output(OutputNeuron))));
}

#[test]
fn directional_weights_in_draw_order() {
    let mut rng = stepping(-1.0);
    let network = NeuralNetworkBuilder::<f64>::new(2, 1)
        .add_neuron(trivial(0.0))
        .add_neuron(trivial(0.0))
        .create_directional(&mut rng);
    assert_eq!(3, network.layers.len());
    let w: Vec<f64> = network.layers[0].neurons.iter()
        .flat_map(|n| n.connections.iter().map(|c| c.weight))
        .collect();
    assert_eq!(vec![-1.0, -0.75, -0.5, -0.25], w);
    // the weights are the draws, in wiring order
    let hidden: Vec<f64> = network.layers[1].neurons.iter()
        .flat_map(|n| n.connections.iter().map(|c| c.weight))
        .collect();
    assert_eq!(vec![0.0, 0.25], hidden);
    assert_eq!(vec![-1.0, -0.75, -0.5, -0.25, 0.0, 0.25], rng.history);
    for layer in &network.layers {
        for n in &layer.neurons {
            for c in &n.connections {
                assert!(c.weight >= -1.0 && c.weight <= 1.0);
            }
        }
    }
    assert_eq!(0, network.layers[2].neurons[0].connections.len());
}

#[test]
fn directional_without_outputs() {
    let mut rng = stepping(0.0);
    let network = NeuralNetworkBuilder::<f64>::new(2, 0)
        .add_neuron(trivial(0.0))
        .create_directional(&mut rng);
    assert_eq!(2, network.layers.len());
    assert_eq!(1, network.layers[1].neurons.len());
    assert_eq!(0, network.layers[1].neurons[0].connections.len());
}

#[test]
fn directional_on_empty_builder() {
    let mut rng = stepping(0.0);
    let network = NeuralNetworkBuilder::<f64>::new(0, 0).create_directional(&mut rng);
    assert_eq!(0, network.layers.len());
    assert_eq!(0, rng.draws);
}

#[test]
fn sealing_empty_layer_changes_nothing() {
    let network = NeuralNetworkBuilder::<f64>::new(2, 1)
        .next_layer()
        .next_layer()
        .next_layer()
        .add_neuron(trivial(0.0))
        .next_layer()
        .next_layer()
        .finish_manual();
    assert_eq!(2, network.layers.len());
    assert_eq!(2, network.layers[0].neurons.len());
    assert_eq!(1, network.layers[1].neurons.len());
}

#[test]
fn finish_manual_keeps_open_layer_and_adds_no_wiring() {
    let network = NeuralNetworkBuilder::<f64>::new(1, 3)
        .add_neuron(trivial(0.0))
        .add_neuron(trivial(0.0))
        .finish_manual();
    assert_eq!(2, network.layers.len());
    assert_eq!(2, network.layers[1].neurons.len());
    assert_eq!(0, network.layers[0].neurons[0].connections.len());
}

#[test]
fn connect_from_committed_unit() {
    let network = NeuralNetworkBuilder::<f64>::new(2, 1)
        .add_neuron(trivial(0.0))
        .next_layer()
        .connect((0, 1), (1, 0), 0.5)
        .connect((0, 1), (7, 7), -0.5)
        .connect((1, 0), (2, 0), 1.0)
        .finish_manual();
    assert_eq!(0, network.layers[0].neurons[0].connections.len());
    let conns = &network.layers[0].neurons[1].connections;
    assert_eq!(2, conns.len());
    assert_eq!((1, 0), conns[0].link);
    assert_eq!(0.5, conns[0].weight);
    assert_eq!((7, 7), conns[1].link);
    assert_eq!(-0.5, conns[1].weight);
    assert_eq!(1, network.layers[1].neurons[0].connections.len());
}

#[test]
fn connect_out_of_range_adds_nothing() {
    let network = NeuralNetworkBuilder::<f64>::new(2, 1)
        .add_neuron(trivial(0.0))
        .connect((0, 2), (1, 0), 0.5)
        .connect((1, 0), (2, 0), 0.5)
        .connect((5, 0), (0, 0), 0.5)
        .finish_manual();
    let total: usize = network.layers.iter()
        .flat_map(|l| l.neurons.iter())
        .map(|n| n.connections.len())
        .sum();
    assert_eq!(0, total);
    assert_eq!(2, network.layers.len());
}

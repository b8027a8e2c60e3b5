use libfornix_neuralnetwork::{
    AddressError, Connection, InputNeuron, Layer, NeuralNetwork, NeuralNetworkBuilder, Neuron, NeuronModel,
    OutputNeuron, TrivialNeuron, WeightSource,
};

struct Ones {
    draws: usize,
}

impl WeightSource<f64> for Ones {
    fn draws(&self) -> usize {
        self.draws
    }

    fn produced(&self, _n: usize) -> f64 {
        1.0
    }

    fn generate_weight(&mut self) -> f64 {
        self.draws += 1;
        1.0
    }
}

fn input_value(n: &Neuron<f64>) -> Option<f64> {
    match &n.model {
        NeuronModel::Input(m) => Some(m.value),
        _ => None,
    }
}

#[test]
fn test_locate() {
    // create test network
    let mut testTarget = NeuralNetwork {
      layers: Vec::new(),
    };
    testTarget.layers.push(Layer {
        neurons: vec![Neuron::new(NeuronModel::Trivial(TrivialNeuron::create_initial(0.25)))],
    });

    assert!(testTarget.locate((10, 10)).is_none());
    assert!(testTarget.locate((0, 0)).is_some());
}

#[test]
fn locate_each_coordinate_checked() {
    let mut net = NeuralNetwork::<f64>::empty();
    net.layers.push(Layer::new());
    net.layers[0].neurons.push(Neuron::new(NeuronModel::Output(OutputNeuron)));
    assert!(net.locate((0, 1)).is_none());
    assert!(net.locate((1, 0)).is_none());
    assert!(net.locate_mut((10, 10)).is_none());
    assert!(net.locate_mut((0, 1)).is_none());
    assert!(net.locate_mut((0, 0)).is_some());
}

#[test]
fn locate_mut_writes_at_address() {
    let mut net = NeuralNetworkBuilder::<f64>::new(2, 1).finish_manual();
    net.layers.push(Layer { neurons: vec![Neuron::new(NeuronModel::Output(OutputNeuron))] });
    if let Some(n) = net.locate_mut((0, 1)) {
        n.connections.push(Connection::new(0.75, (1, 0)));
    }
    assert_eq!(0, net.layers[0].neurons[0].connections.len());
    assert_eq!(1, net.layers[0].neurons[1].connections.len());
    assert_eq!(0.75, net.locate((0, 1)).unwrap().connections[0].weight);
}

#[test]
fn load_inputs_fills_first_layer_in_order() {
    let mut net = NeuralNetworkBuilder::<f64>::new(4, 1).finish_manual();
    assert!(net.load_inputs(&vec![vec![1.0, 2.0], vec![], vec![3.0]]));
    let values: Vec<Option<f64>> = net.layers[0].neurons.iter().map(input_value).collect();
    assert_eq!(vec![Some(1.0), Some(2.0), Some(3.0), Some(0.0)], values);
}

#[test]
fn load_inputs_rejects_too_many() {
    let mut net = NeuralNetworkBuilder::<f64>::new(2, 1).finish_manual();
    assert!(!net.load_inputs(&vec![vec![1.0], vec![2.0, 3.0]]));
    let values: Vec<Option<f64>> = net.layers[0].neurons.iter().map(input_value).collect();
    assert_eq!(vec![Some(0.0), Some(0.0)], values);
}

#[test]
fn load_inputs_exact_count_and_empty_network() {
    let mut net = NeuralNetworkBuilder::<f64>::new(2, 1).finish_manual();
    assert!(net.load_inputs(&vec![vec![5.0, 6.0]]));
    assert_eq!(Some(6.0), input_value(&net.layers[0].neurons[1]));

    let mut empty = NeuralNetwork::<f64>::empty();
    assert!(empty.load_inputs(&vec![vec![]]));
    assert!(!empty.load_inputs(&vec![vec![1.0]]));
}

#[test]
fn load_inputs_passes_over_non_input_units() {
    let mut net = NeuralNetwork::<f64>::empty();
    net.layers.push(Layer {
        neurons: vec![
            Neuron::new(NeuronModel::Trivial(TrivialNeuron::create_initial(0.5))),
            Neuron::new(NeuronModel::Input(InputNeuron { value: 0.0 })),
        ],
    });
    assert_eq!(1, net.input_count());
    assert!(!net.load_inputs(&vec![vec![7.0, 8.0]]));
    assert_eq!(Some(0.0), input_value(&net.layers[0].neurons[1]));
    assert!(net.load_inputs(&vec![vec![7.0]]));
    match &net.layers[0].neurons[0].model {
        NeuronModel::Trivial(t) => assert_eq!(0.5, t.bias),
        _ => panic!("model changed"),
    }
    assert_eq!(Some(7.0), input_value(&net.layers[0].neurons[1]));
}

#[test]
fn incoming_pulls_connections_to_target() {
    // 2 inputs, 2 hidden units with zero bias, 1 output, all weights 1.0
    let net = NeuralNetworkBuilder::<f64>::new(2, 1)
        .add_neuron(NeuronModel::Trivial(TrivialNeuron::create_initial(0.0)))
        .add_neuron(NeuronModel::Trivial(TrivialNeuron::create_initial(0.0)))
        .create_directional(&mut Ones { draws: 0 });
    assert_eq!(vec![(0, 1.0), (1, 1.0)], net.incoming((1, 0)));
    assert_eq!(vec![(0, 1.0), (1, 1.0)], net.incoming((1, 1)));
    assert_eq!(vec![(0, 1.0), (1, 1.0)], net.incoming((2, 0)));
    assert!(net.incoming((0, 0)).is_empty());
    assert!(net.incoming((3, 0)).is_empty());
    assert!(net.incoming((2, 5)).is_empty());
}

#[test]
fn incoming_keeps_scan_order_and_repeats() {
    let mut net = NeuralNetwork::<f64>::empty();
    net.layers.push(Layer {
        neurons: vec![
            Neuron::new(NeuronModel::Input(InputNeuron { value: 0.0 })),
            Neuron::new(NeuronModel::Input(InputNeuron { value: 0.0 })),
        ],
    });
    net.layers.push(Layer {
        neurons: vec![Neuron::new(NeuronModel::Output(OutputNeuron))],
    });
    net.layers[0].neurons[1].connections.push(Connection::new(2.0, (1, 0)));
    net.layers[0].neurons[1].connections.push(Connection::new(9.0, (1, 3)));
    net.layers[0].neurons[1].connections.push(Connection::new(3.0, (1, 0)));
    net.layers[0].neurons[0].connections.push(Connection::new(4.0, (1, 0)));
    assert_eq!(vec![(0, 4.0), (1, 2.0), (1, 3.0)], net.incoming((1, 0)));
    assert_eq!(vec![(1, 9.0)], net.incoming((1, 3)));
}

#[test]
fn address_error_tells_layer_from_neuron() {
    let mut net = NeuralNetwork::<f64>::empty();
    net.layers.push(Layer { neurons: vec![Neuron::new(NeuronModel::Output(OutputNeuron))] });
    assert_eq!(Some(AddressError::LayerOutOfRange), net.address_error((10, 10)));
    assert_eq!(Some(AddressError::LayerOutOfRange), net.address_error((1, 0)));
    assert_eq!(Some(AddressError::NeuronOutOfRange), net.address_error((0, 1)));
    assert_eq!(None, net.address_error((0, 0)));
}

//! The graph data model: connections, neurons, layers and the network that
//! owns them, with address-based lookup.
//!
//! An address is a pair (layer index, neuron index). Connections carry
//! addresses, never references, so no neuron owns or points at another.
use vstd::prelude::*;

use crate::models::NeuronModel;

verus! {

/// A directed, weighted edge from the owning neuron to `link`.
#[derive(Debug)]
pub struct Connection<S> {
    /// Connection weight
    pub weight: S,
    /// Target (layer, neuron)
    pub link: (usize, usize),
}

impl<S: Clone> Clone for Connection<S> {
    fn clone(&self) -> (r: Self)
        ensures
            r.link == self.link,
    {
        Connection { weight: self.weight.clone(), link: self.link }
    }
}

impl<S> Connection<S> {
    /// Creates a connection with a weight and a target.
    pub fn new(weight: S, link: (usize, usize)) -> (r: Self)
        ensures
            r.weight == weight,
            r.link == link,
    {
        Connection { weight, link }
    }
}

/// A unit of the network: its model and its outgoing connections.
#[derive(Clone, Debug)]
pub struct Neuron<S> {
    /// The unit's behaviour
    pub model: NeuronModel<S>,
    /// Outgoing connections, in the order they were made
    pub connections: Vec<Connection<S>>,
}

impl<S> Neuron<S> {
    /// Creates a neuron without any connections.
    pub fn new(model: NeuronModel<S>) -> (r: Self)
        ensures
            r.model == model,
            r.connections@.len() == 0,
    {
        Neuron { model, connections: Vec::new() }
    }
}

/// An ordered group of neurons; a neuron's position is the second
/// coordinate of its address.
#[derive(Clone, Debug)]
pub struct Layer<S> {
    /// Neurons that are contained
    pub neurons: Vec<Neuron<S>>,
}

impl<S> Layer<S> {
    /// Creates an empty layer.
    pub fn new() -> (r: Self)
        ensures
            r.neurons@.len() == 0,
    {
        Layer { neurons: Vec::new() }
    }
}

/// Why an address names no neuron.
#[derive(Clone, Copy, Debug, PartialEq, Eq, Structural)]
pub enum AddressError {
    /// The layer index is out of range.
    LayerOutOfRange,
    /// The layer exists, but the neuron index is out of range.
    NeuronOutOfRange,
}

/// A layered network of neurons; a layer's position is the first
/// coordinate of every address into it.
#[derive(Clone, Debug)]
pub struct NeuralNetwork<S> {
    /// Container for all layers
    pub layers: Vec<Layer<S>>,
}

impl<S> View for NeuralNetwork<S> {
    type V = Seq<Seq<Neuron<S>>>;

    /// The neurons of each layer, layer by layer.
    open spec fn view(&self) -> Seq<Seq<Neuron<S>>> {
        Seq::new(self.layers@.len(), |i: int| self.layers@[i].neurons@)
    }
}

/// Whether `a` names a neuron of the layers `g`.
pub open spec fn in_range<S>(g: Seq<Seq<Neuron<S>>>, a: (usize, usize)) -> bool {
    a.0 < g.len() && a.1 < g[a.0 as int].len()
}

/// The number of neurons in each layer.
pub open spec fn sizes<S>(g: Seq<Seq<Neuron<S>>>) -> Seq<nat> {
    Seq::new(g.len(), |i: int| g[i].len())
}

/// The scalar groups of an evaluation's input, each as a sequence.
pub open spec fn groups<S>(inputs: Seq<Vec<S>>) -> Seq<Seq<S>> {
    inputs.map_values(|g: Vec<S>| g@)
}

/// The number of units among the first `k` of `layer` that take an
/// externally assigned value.
pub open spec fn inputs_before<S>(layer: Seq<Neuron<S>>, k: int) -> nat
    decreases k,
{
    if k <= 0 {
        0
    } else {
        inputs_before(layer, k - 1) + if layer[k - 1].model.accepts_external() {
            1nat
        } else {
            0nat
        }
    }
}

/// How many units of the first layer take input values.
pub open spec fn input_capacity<S>(g: Seq<Seq<Neuron<S>>>) -> nat {
    if g.len() == 0 {
        0
    } else {
        inputs_before(g[0], g[0].len() as int)
    }
}

/// The layer `layer` after the values `vals` have been assigned in order to
/// its units that take external values: the n-th such unit gets `vals[n]`
/// while there is one; every other unit is unchanged.
pub open spec fn loaded<S>(layer: Seq<Neuron<S>>, vals: Seq<S>) -> Seq<Neuron<S>> {
    Seq::new(
        layer.len(),
        |k: int|
            if layer[k].model.accepts_external() && inputs_before(layer, k) < vals.len() {
                Neuron {
                    model: layer[k].model.with_external(vals[inputs_before(layer, k) as int]),
                    connections: layer[k].connections,
                }
            } else {
                layer[k]
            },
    )
}

/// The (source index, weight) pairs of the connections among `conns` that
/// end at `target`, in order, all attributed to the neuron at `source`.
pub open spec fn matching<S>(conns: Seq<Connection<S>>, source: usize, target: (usize, usize)) -> Seq<(usize, S)>
    decreases conns.len(),
{
    if conns.len() == 0 {
        Seq::empty()
    } else {
        matching(conns.drop_last(), source, target) + if conns.last().link == target {
            seq![(source, conns.last().weight)]
        } else {
            Seq::empty()
        }
    }
}

/// The (source index, weight) pairs of every connection from the neurons
/// `sources` to `target`, scanned neuron by neuron, connection by connection.
pub open spec fn gathered<S>(sources: Seq<Neuron<S>>, target: (usize, usize)) -> Seq<(usize, S)>
    decreases sources.len(),
{
    if sources.len() == 0 {
        Seq::empty()
    } else {
        gathered(sources.drop_last(), target) + matching(
            sources.last().connections@,
            (sources.len() - 1) as usize,
            target,
        )
    }
}

/// The input scalars, group by group, as one sequence.
pub(crate) fn flatten_inputs<S: Copy>(inputs: &Vec<Vec<S>>) -> (r: Vec<S>)
    ensures
        r@ == groups(inputs@).flatten(),
{
    let ghost gs = groups(inputs@);
    let mut r: Vec<S> = Vec::new();
    let mut g: usize = 0;
    while g < inputs.len()
        invariant
            gs == groups(inputs@),
            g <= inputs.len(),
            r@ == gs.take(g as int).flatten(),
        decreases inputs.len() - g,
    {
        proof {
            assert(gs.take(g + 1) =~= gs.take(g as int).push(gs[g as int]));
            gs.take(g as int).lemma_flatten_push(gs[g as int]);
        }
        let group = &inputs[g];
        let mut k: usize = 0;
        while k < group.len()
            invariant
                gs == groups(inputs@),
                g < inputs.len(),
                group@ == gs[g as int],
                k <= group.len(),
                r@ == gs.take(g as int).flatten() + group@.take(k as int),
            decreases group.len() - k,
        {
            r.push(group[k]);
            assert(r@ =~= gs.take(g as int).flatten() + group@.take(k + 1));
            k = k + 1;
        }
        assert(group@.take(group.len() as int) =~= group@);
        g = g + 1;
    }
    assert(gs.take(inputs.len() as int) =~= gs);
    r
}

impl<S> NeuralNetwork<S> {
    /// Creates a network without layers.
    pub fn empty() -> (r: Self)
        ensures
            r@.len() == 0,
    {
        NeuralNetwork { layers: Vec::new() }
    }

    /// Why `location` names no neuron, or `None` when it names one.
    pub fn address_error(&self, location: (usize, usize)) -> (r: Option<AddressError>)
        ensures
            r == (if location.0 >= self@.len() {
                Some(AddressError::LayerOutOfRange)
            } else if location.1 >= self@[location.0 as int].len() {
                Some(AddressError::NeuronOutOfRange)
            } else {
                None
            }),
    {
        if location.0 >= self.layers.len() {
            Some(AddressError::LayerOutOfRange)
        } else if location.1 >= self.layers[location.0].neurons.len() {
            Some(AddressError::NeuronOutOfRange)
        } else {
            None
        }
    }

    /// Gets a reference to the neuron at `location` (layer, neuron), or
    /// `None` when either coordinate is out of range.
    pub fn locate(&self, location: (usize, usize)) -> (r: Option<&Neuron<S>>)
        ensures
            r is Some == in_range(self@, location),
            r matches Some(n) ==> *n == self@[location.0 as int][location.1 as int],
    {
        if location.0 >= self.layers.len() {
            return None;
        }
        if location.1 >= self.layers[location.0].neurons.len() {
            return None;
        }
        Some(&self.layers[location.0].neurons[location.1])
    }

    /// Gets a mutable reference to the neuron at `location` (layer, neuron),
    /// or `None` when either coordinate is out of range. Whatever is written
    /// through the reference lands at that address and nowhere else.
    pub fn locate_mut(&mut self, location: (usize, usize)) -> (r: Option<&mut Neuron<S>>)
        ensures
            r is Some == in_range(old(self)@, location),
            match r {
                Some(n) => {
                    &&& *n == old(self)@[location.0 as int][location.1 as int]
                    &&& final(self)@ == old(self)@.update(
                        location.0 as int,
                        old(self)@[location.0 as int].update(location.1 as int, *final(n)),
                    )
                },
                None => *final(self) == *old(self),
            },
    {
        if location.0 >= self.layers.len() {
            return None;
        }
        if location.1 >= self.layers[location.0].neurons.len() {
            return None;
        }
        Some(&mut self.layers[location.0].neurons[location.1])
    }

    /// The number of units of the first layer that take input values.
    pub fn input_count(&self) -> (r: usize)
        ensures
            r == input_capacity(self@),
    {
        if self.layers.len() == 0 {
            return 0;
        }
        let units = &self.layers[0].neurons;
        let mut count: usize = 0;
        let mut k: usize = 0;
        while k < units.len()
            invariant
                units@ == self@[0],
                k <= units.len(),
                count == inputs_before(units@, k as int),
                count <= k,
            decreases units.len() - k,
        {
            if units[k].model.is_input() {
                count = count + 1;
            }
            k = k + 1;
        }
        count
    }

    /// Assigns the input scalars, group by group and within a group in
    /// order, to the units of the first layer that take input values, in
    /// order; other units are passed over. Fails, changing nothing, when
    /// there are more scalars than such units.
    pub fn load_inputs(&mut self, inputs: &Vec<Vec<S>>) -> (ok: bool)
        where
            S: Copy,
        ensures
            ok == (groups(inputs@).flatten().len() <= input_capacity(old(self)@)),
            ok && old(self)@.len() > 0 ==> final(self)@ == old(self)@.update(
                0,
                loaded(old(self)@[0], groups(inputs@).flatten()),
            ),
            !ok || old(self)@.len() == 0 ==> *final(self) == *old(self),
    {
        let flat = flatten_inputs(inputs);
        let cap = self.input_count();
        if flat.len() > cap {
            return false;
        }
        if self.layers.len() == 0 {
            return true;
        }
        let ghost g0 = self@;
        let ghost l0 = self@[0];
        let width = self.layers[0].neurons.len();
        let mut next: usize = 0;
        let mut k: usize = 0;
        proof {
            assert(Seq::new(l0.len(), |x: int| if x < 0 { loaded(l0, flat@)[x] } else { l0[x] }) =~= l0);
            assert(g0.update(0, l0) =~= g0);
        }
        while k < width
            invariant
                g0 == old(self)@,
                l0 == g0[0],
                g0.len() > 0,
                width == l0.len(),
                flat@ == groups(inputs@).flatten(),
                k <= width,
                next == inputs_before(l0, k as int),
                next <= k,
                self@ == g0.update(
                    0,
                    Seq::new(l0.len(), |x: int| if x < k { loaded(l0, flat@)[x] } else { l0[x] }),
                ),
            decreases width - k,
        {
            let ghost before = self@;
            match self.locate_mut((0, k)) {
                Some(n) => {
                    if n.model.is_input() {
                        if next < flat.len() {
                            n.model.set_external_value(flat[next]);
                        }
                        next = next + 1;
                    }
                },
                None => {},
            }
            proof {
                assert(before[0][k as int] == l0[k as int]);
                assert(self@[0] =~= Seq::new(
                    l0.len(),
                    |x: int| if x < k + 1 { loaded(l0, flat@)[x] } else { l0[x] },
                ));
                assert(self@ =~= g0.update(
                    0,
                    Seq::new(l0.len(), |x: int| if x < k + 1 { loaded(l0, flat@)[x] } else { l0[x] }),
                ));
            }
            k = k + 1;
        }
        proof {
            assert(Seq::new(l0.len(), |x: int| if x < width { loaded(l0, flat@)[x] } else { l0[x] })
                =~= loaded(l0, flat@));
        }
        true
    }

    /// The inputs that the neuron at `target` pulls in a layer-ordered
    /// evaluation: for every connection from the layer before `target`'s
    /// layer that ends at `target`, the index of its source neuron and its
    /// weight, scanned source by source and connection by connection. Empty
    /// for the first layer and for a layer index out of range.
    pub fn incoming(&self, target: (usize, usize)) -> (r: Vec<(usize, S)>)
        where
            S: Copy,
        ensures
            r@ == (if 0 < target.0 < self@.len() {
                gathered(self@[target.0 - 1], target)
            } else {
                Seq::empty()
            }),
    {
        let mut r: Vec<(usize, S)> = Vec::new();
        if target.0 == 0 || target.0 >= self.layers.len() {
            return r;
        }
        let sources = &self.layers[target.0 - 1].neurons;
        let mut s: usize = 0;
        while s < sources.len()
            invariant
                s <= sources.len(),
                r@ == gathered(sources@.take(s as int), target),
            decreases sources.len() - s,
        {
            let conns = &sources[s].connections;
            let mut c: usize = 0;
            while c < conns.len()
                invariant
                    s < sources.len(),
                    conns@ == sources@[s as int].connections@,
                    c <= conns.len(),
                    r@ == gathered(sources@.take(s as int), target) + matching(
                        conns@.take(c as int),
                        s,
                        target,
                    ),
                decreases conns.len() - c,
            {
                proof {
                    assert(conns@.take(c + 1).drop_last() =~= conns@.take(c as int));
                }
                if conns[c].link.0 == target.0 && conns[c].link.1 == target.1 {
                    r.push((s, conns[c].weight));
                    assert(r@ =~= gathered(sources@.take(s as int), target) + matching(
                        conns@.take(c + 1),
                        s,
                        target,
                    ));
                } else {
                    assert(r@ =~= gathered(sources@.take(s as int), target) + matching(
                        conns@.take(c + 1),
                        s,
                        target,
                    ));
                }
                c = c + 1;
            }
            proof {
                assert(conns@.take(conns.len() as int) =~= conns@);
                assert(sources@.take(s + 1).drop_last() =~= sources@.take(s as int));
            }
            s = s + 1;
        }
        assert(sources@.take(sources.len() as int) =~= sources@);
        r
    }
}

} // verus!

//! Layer-ordered evaluation of a network.
//!
//! Values are pulled, never pushed: a unit's inputs are the values of the
//! units of the previous layer that have a connection to it, each weighed by
//! that connection, in the order `NeuralNetwork::incoming` gives them. The
//! scalar arithmetic itself belongs to the scalar type and is supplied by an
//! `Arithmetic`.
use vstd::prelude::*;

use crate::models::{Arithmetic, InputNeuron, NeuronModel, OutputNeuron, TrivialNeuron};
use crate::network::{
    flatten_inputs, gathered, groups, input_capacity, inputs_before, loaded, matching, Connection, NeuralNetwork,
    Neuron,
};

verus! {

proof fn lemma_matching_source<S>(conns: Seq<Connection<S>>, source: usize, target: (usize, usize))
    ensures
        forall|t: int|
            0 <= t < matching(conns, source, target).len() ==> #[trigger] matching(
                conns,
                source,
                target,
            )[t].0 == source,
    decreases conns.len(),
{
    if conns.len() > 0 {
        lemma_matching_source(conns.drop_last(), source, target);
        let m = matching(conns, source, target);
        let head = matching(conns.drop_last(), source, target);
        assert forall|t: int| 0 <= t < m.len() implies #[trigger] m[t].0 == source by {
            if t < head.len() {
                assert(m[t] == head[t]);
            }
        }
    }
}

/// Every source index that `gathered` reports names one of the units scanned.
proof fn lemma_gathered_sources<S>(units: Seq<Neuron<S>>, target: (usize, usize))
    requires
        units.len() <= usize::MAX + 1,
    ensures
        forall|t: int|
            0 <= t < gathered(units, target).len() ==> (#[trigger] gathered(units, target)[t]).0
                < units.len(),
    decreases units.len(),
{
    if units.len() > 0 {
        let d = units.drop_last();
        lemma_gathered_sources(d, target);
        let src = (units.len() - 1) as usize;
        lemma_matching_source(units.last().connections@, src, target);
        let g = gathered(units, target);
        let head = gathered(d, target);
        assert forall|t: int| 0 <= t < g.len() implies (#[trigger] g[t]).0 < units.len() by {
            if t < head.len() {
                assert(g[t] == head[t]);
            } else {
                assert(g[t] == matching(units.last().connections@, src, target)[t - head.len()]);
            }
        }
    }
}

/// A copy of a model.
fn copy_model<S: Copy>(m: &NeuronModel<S>) -> (r: NeuronModel<S>)
    ensures
        r == *m,
{
    match m {
        NeuronModel::Input(x) => NeuronModel::Input(InputNeuron { value: x.value }),
        NeuronModel::Trivial(x) => NeuronModel::Trivial(TrivialNeuron { bias: x.bias }),
        NeuronModel::Output(_) => NeuronModel::Output(OutputNeuron),
    }
}

/// The inputs that `pairs` of (source index, weight) hand a unit when the
/// sources' values are `prev`: each source value weighed by its weight.
pub open spec fn weighted<S, A: Arithmetic<S>>(pairs: Seq<(usize, S)>, prev: Seq<S>, arith: &A) -> Seq<S> {
    pairs.map_values(|p: (usize, S)| arith.times_spec(prev[p.0 as int], p.1))
}

/// The values of the first layer `units`: each unit's value on no inputs,
/// activated as layer 0.
pub open spec fn first_values<S: Copy, A: Arithmetic<S>>(units: Seq<Neuron<S>>, arith: &A) -> Seq<S> {
    Seq::new(units.len(), |j: int| arith.activate_spec(0, units[j].model.value_for(Seq::empty(), arith)))
}

/// The values of layer `i` of the layers `g` when the first layer's values
/// are `first`: unit j of a later layer takes the weighted values of the
/// previous layer's units connected to it (`gathered`), computes its value
/// over them and activates it as layer `i`.
pub open spec fn layer_values<S: Copy, A: Arithmetic<S>>(
    g: Seq<Seq<Neuron<S>>>,
    i: nat,
    first: Seq<S>,
    arith: &A,
) -> Seq<S>
    decreases i,
{
    if i == 0 {
        first
    } else {
        let prev = layer_values(g, (i - 1) as nat, first, arith);
        Seq::new(
            g[i as int].len(),
            |j: int|
                arith.activate_spec(
                    i as usize,
                    g[i as int][j].model.value_for(
                        weighted(gathered(g[i - 1], (i as usize, j as usize)), prev, arith),
                        arith,
                    ),
                ),
        )
    }
}

proof fn lemma_gathered_by_connections<S>(u: Seq<Neuron<S>>, w: Seq<Neuron<S>>, target: (usize, usize))
    requires
        u.len() == w.len(),
        forall|k: int| 0 <= k < u.len() ==> (#[trigger] u[k]).connections == w[k].connections,
    ensures
        gathered(u, target) == gathered(w, target),
    decreases u.len(),
{
    if u.len() > 0 {
        let (du, dw) = (u.drop_last(), w.drop_last());
        assert forall|k: int| 0 <= k < du.len() implies (#[trigger] du[k]).connections == dw[k].connections by {
            assert(du[k] == u[k] && dw[k] == w[k]);
        }
        lemma_gathered_by_connections(du, dw, target);
        assert(u.last().connections == w.last().connections);
    }
}

proof fn lemma_layer_values_first_layer<S: Copy, A: Arithmetic<S>>(
    g: Seq<Seq<Neuron<S>>>,
    layer0: Seq<Neuron<S>>,
    i: nat,
    first: Seq<S>,
    arith: &A,
)
    requires
        0 < g.len(),
        i < g.len(),
        layer0.len() == g[0].len(),
        forall|k: int| 0 <= k < layer0.len() ==> (#[trigger] layer0[k]).connections == g[0][k].connections,
    ensures
        layer_values(g.update(0, layer0), i, first, arith) == layer_values(g, i, first, arith),
    decreases i,
{
    if i > 0 {
        lemma_layer_values_first_layer(g, layer0, (i - 1) as nat, first, arith);
        let h = g.update(0, layer0);
        assert(h[i as int] == g[i as int]);
        assert forall|j: int| 0 <= j < g[i as int].len() implies #[trigger] gathered(h[i - 1], (i as usize, j as usize))
            == gathered(g[i - 1], (i as usize, j as usize)) by {
            if i == 1 {
                lemma_gathered_by_connections(h[0], g[0], (i as usize, j as usize));
            } else {
                assert(h[i - 1] == g[i - 1]);
            }
        }
        assert(layer_values(h, i, first, arith) =~= layer_values(g, i, first, arith));
    }
}

/// Evaluating without changing the network gives the values that loading
/// the inputs into it and evaluating it then gives: loading changes the
/// first layer's units but not their connections, so only the first
/// layer's values differ, and they are the loaded units' values in both.
pub proof fn lemma_execute_agrees_with_loaded<S: Copy, A: Arithmetic<S>>(
    g: Seq<Seq<Neuron<S>>>,
    vals: Seq<S>,
    i: nat,
    arith: &A,
)
    requires
        i < g.len(),
    ensures
        layer_values(g, i, first_values(loaded(g[0], vals), arith), arith) == layer_values(
            g.update(0, loaded(g[0], vals)),
            i,
            first_values(g.update(0, loaded(g[0], vals))[0], arith),
            arith,
        ),
{
    lemma_layer_values_first_layer(g, loaded(g[0], vals), i, first_values(loaded(g[0], vals), arith), arith);
}

impl<S: Copy> NeuralNetwork<S> {
    /// The weighted inputs of the unit at `target`, given the values of the
    /// layer before it: one per entry of `incoming(target)`, in that order.
    fn weighted_inputs<E: Arithmetic<S>>(&self, target: (usize, usize), previous: &Vec<S>, eval: &E) -> (r: Vec<S>)
        requires
            0 < target.0 < self@.len(),
            previous@.len() == self@[target.0 - 1].len(),
        ensures
            r@ == weighted(gathered(self@[target.0 - 1], target), previous@, eval),
    {
        let inc = self.incoming(target);
        let sources = self.layers[target.0 - 1].neurons.len();
        proof {
            assert(sources == self@[target.0 - 1].len());
            lemma_gathered_sources(self@[target.0 - 1], target);
        }
        let mut r: Vec<S> = Vec::new();
        let mut t: usize = 0;
        while t < inc.len()
            invariant
                inc@ == gathered(self@[target.0 - 1], target),
                previous@.len() == self@[target.0 - 1].len(),
                forall|u: int| 0 <= u < inc@.len() ==> (#[trigger] inc@[u]).0 < previous@.len(),
                t <= inc.len(),
                r@ == weighted(inc@.take(t as int), previous@, eval),
            decreases inc.len() - t,
        {
            let (source, weight) = inc[t];
            r.push(eval.times(previous[source], weight));
            assert(r@ =~= weighted(inc@.take(t + 1), previous@, eval));
            t = t + 1;
        }
        assert(inc@.take(inc.len() as int) =~= inc@);
        r
    }

    /// The values of every unit of the last layer, with the first layer
    /// loaded with `flat` (see `loaded`) but without changing the network.
    fn evaluate<E: Arithmetic<S>>(&self, flat: &Vec<S>, eval: &E) -> (r: Vec<S>)
        requires
            self@.len() > 0,
        ensures
            r@ == layer_values(
                self@,
                (self@.len() - 1) as nat,
                first_values(loaded(self@[0], flat@), eval),
                eval,
            ),
    {
        let ghost first = first_values(loaded(self@[0], flat@), eval);
        let units = &self.layers[0].neurons;
        let mut previous: Vec<S> = Vec::new();
        let mut next: usize = 0;
        let mut j: usize = 0;
        while j < units.len()
            invariant
                units@ == self@[0],
                first == first_values(loaded(self@[0], flat@), eval),
                j <= units.len(),
                next == inputs_before(units@, j as int),
                next <= j,
                previous@ == first.take(j as int),
            decreases units.len() - j,
        {
            let mut m = copy_model(&units[j].model);
            if m.is_input() {
                if next < flat.len() {
                    m.set_external_value(flat[next]);
                }
                next = next + 1;
            }
            let none: Vec<S> = Vec::new();
            assert(none@ =~= Seq::<S>::empty());
            let v = m.calculate(&none, eval);
            previous.push(eval.activate(0, v));
            assert(previous@ =~= first.take(j + 1));
            j = j + 1;
        }
        assert(first.take(units.len() as int) =~= first);
        let n = self.layers.len();
        let mut i: usize = 1;
        while i < n
            invariant
                n == self@.len(),
                1 <= i <= n,
                previous@ == layer_values(self@, (i - 1) as nat, first, eval),
                previous@.len() == self@[i - 1].len(),
            decreases n - i,
        {
            let ghost cur = layer_values(self@, i as nat, first, eval);
            let width = self.layers[i].neurons.len();
            let mut values: Vec<S> = Vec::new();
            let mut j: usize = 0;
            while j < width
                invariant
                    n == self@.len(),
                    1 <= i < n,
                    width == self@[i as int].len(),
                    previous@ == layer_values(self@, (i - 1) as nat, first, eval),
                    previous@.len() == self@[i - 1].len(),
                    cur == layer_values(self@, i as nat, first, eval),
                    j <= width,
                    values@ == cur.take(j as int),
                decreases width - j,
            {
                let args = self.weighted_inputs((i, j), &previous, eval);
                let v = self.layers[i].neurons[j].model.calculate(&args, eval);
                values.push(eval.activate(i, v));
                assert(values@ =~= cur.take(j + 1));
                j = j + 1;
            }
            assert(cur.take(width as int) =~= cur);
            previous = values;
            i = i + 1;
        }
        previous
    }

    /// Evaluates the network on live data: assigns the input scalars to the
    /// first layer as `load_inputs` does, then computes the layers in order
    /// (see `layer_values`) and returns the last layer's values. `None`, with
    /// nothing changed, when there are more scalars than input units in the
    /// first layer or when there are no layers. None of the units has
    /// memory, so apart from the assigned inputs the network stays as it was.
    pub fn execute_mut<E: Arithmetic<S>>(&mut self, inputs: &Vec<Vec<S>>, eval: &E) -> (r: Option<Vec<S>>)
        ensures
            r is Some == (groups(inputs@).flatten().len() <= input_capacity(old(self)@) && old(self)@.len() > 0),
            r is Some ==> final(self)@ == old(self)@.update(
                0,
                loaded(old(self)@[0], groups(inputs@).flatten()),
            ),
            r matches Some(v) ==> v@ == layer_values(
                final(self)@,
                (final(self)@.len() - 1) as nat,
                first_values(final(self)@[0], eval),
                eval,
            ),
            r is None ==> *final(self) == *old(self),
    {
        if !self.load_inputs(inputs) {
            return None;
        }
        assert(self@.len() == self.layers@.len());
        if self.layers.len() == 0 {
            return None;
        }
        let none: Vec<S> = Vec::new();
        assert(loaded(self@[0], none@) =~= self@[0]);
        Some(self.evaluate(&none, eval))
    }

    /// Evaluates the network without changing it: the same values as
    /// `execute_mut` would give, computed with each first-layer input unit
    /// on a copy of its model that holds its input scalar.
    pub fn execute<E: Arithmetic<S>>(&self, inputs: &Vec<Vec<S>>, eval: &E) -> (r: Option<Vec<S>>)
        ensures
            r is Some == (groups(inputs@).flatten().len() <= input_capacity(self@) && self@.len() > 0),
            r matches Some(v) ==> v@ == layer_values(
                self@,
                (self@.len() - 1) as nat,
                first_values(loaded(self@[0], groups(inputs@).flatten()), eval),
                eval,
            ),
    {
        let flat = flatten_inputs(inputs);
        if flat.len() > self.input_count() {
            return None;
        }
        if self.layers.len() == 0 {
            return None;
        }
        Some(self.evaluate(&flat, eval))
    }
}

} // verus!

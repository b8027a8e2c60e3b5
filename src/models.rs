//! Neuron models: the behaviour a unit of the network carries.
//!
//! A model is generic in its scalar type `S`. What each model computes is
//! stated here; the scalar operations it is computed with (sums, products,
//! activations) are supplied for the scalar type through `Arithmetic`.
use vstd::prelude::*;

verus! {

/// The simplest unit: it sums its inputs and adds a learnable bias.
#[derive(Clone, Debug)]
pub struct TrivialNeuron<S> {
    pub bias: S,
}

impl<S> TrivialNeuron<S> {
    /// Creates a trivial unit whose bias is the given initial value
    /// (usually one drawn at random in [-1, 1] by the caller).
    pub fn create_initial(bias: S) -> (r: Self)
        ensures
            r.bias == bias,
    {
        TrivialNeuron { bias }
    }
}

/// A unit of the first layer: it holds one externally assigned value and
/// ignores its inputs.
#[derive(Clone, Debug)]
pub struct InputNeuron<S> {
    pub value: S,
}

/// A unit of the last layer: it sums its inputs and holds nothing.
#[derive(Clone, Copy, Debug)]
pub struct OutputNeuron;

/// The scalar operations that evaluating units needs, supplied for the
/// scalar type in use.
pub trait Arithmetic<S> {
    /// The sum of no values.
    spec fn zero_spec(&self) -> S;

    /// The sum of two values.
    spec fn plus_spec(&self, a: S, b: S) -> S;

    /// The product of two values.
    spec fn times_spec(&self, a: S, b: S) -> S;

    /// The activation of a value of layer `layer`.
    spec fn activate_spec(&self, layer: usize, value: S) -> S;

    /// The sum of no values.
    fn zero(&self) -> (r: S)
        ensures
            r == self.zero_spec(),
    ;

    /// The sum of two values.
    fn plus(&self, a: S, b: S) -> (r: S)
        ensures
            r == self.plus_spec(a, b),
    ;

    /// The product of two values; weighs a value by a connection's weight.
    fn times(&self, a: S, b: S) -> (r: S)
        ensures
            r == self.times_spec(a, b),
    ;

    /// The activation applied to the value of a unit of layer `layer`
    /// before the value is stored and passed on.
    fn activate(&self, layer: usize, value: S) -> (r: S)
        ensures
            r == self.activate_spec(layer, value),
    ;
}

/// The sum of `s`, added up from the first value to the last.
pub open spec fn sum_spec<S, A: Arithmetic<S>>(arith: &A, s: Seq<S>) -> S
    decreases s.len(),
{
    if s.len() == 0 {
        arith.zero_spec()
    } else {
        arith.plus_spec(sum_spec(arith, s.drop_last()), s.last())
    }
}

/// The sum of `inputs`, added up from the first to the last.
fn sum<S: Copy, A: Arithmetic<S>>(inputs: &Vec<S>, arith: &A) -> (r: S)
    ensures
        r == sum_spec(arith, inputs@),
{
    let mut total = arith.zero();
    let mut k: usize = 0;
    while k < inputs.len()
        invariant
            k <= inputs.len(),
            total == sum_spec(arith, inputs@.take(k as int)),
        decreases inputs.len() - k,
    {
        assert(inputs@.take(k + 1).drop_last() =~= inputs@.take(k as int));
        total = arith.plus(total, inputs[k]);
        k = k + 1;
    }
    assert(inputs@.take(inputs.len() as int) =~= inputs@);
    total
}

/// The closed set of unit behaviours a neuron can carry.
#[derive(Clone, Debug)]
pub enum NeuronModel<S> {
    Input(InputNeuron<S>),
    Trivial(TrivialNeuron<S>),
    Output(OutputNeuron),
}

/// A model whose parameters an external trainer may adjust, addressed by
/// position. The number and order of the parameters never change.
pub trait TrainableNeuronModel<S>: Sized {
    /// The current parameter values, in their fixed order.
    spec fn tweakable(&self) -> Seq<S>;

    /// Returns the current parameter values, in their fixed order.
    fn tweakable_values(&self) -> (r: Vec<S>)
        ensures
            r@ == self.tweakable(),
    ;

    /// Writes `value` into the parameter at `index`; returns false, and
    /// changes nothing, when there is no such parameter.
    fn set_tweakable_value(&mut self, index: usize, value: S) -> (ok: bool)
        ensures
            ok == (index < old(self).tweakable().len()),
            ok ==> final(self).tweakable() == old(self).tweakable().update(index as int, value),
            !ok ==> *final(self) == *old(self),
    ;
}

impl<S: Copy> TrainableNeuronModel<S> for TrivialNeuron<S> {
    open spec fn tweakable(&self) -> Seq<S> {
        seq![self.bias]
    }

    fn tweakable_values(&self) -> (r: Vec<S>) {
        let mut r: Vec<S> = Vec::new();
        r.push(self.bias);
        r
    }

    fn set_tweakable_value(&mut self, index: usize, value: S) -> (ok: bool) {
        if index == 0 {
            self.bias = value;
            true
        } else {
            false
        }
    }
}

impl<S> TrainableNeuronModel<S> for InputNeuron<S> {
    open spec fn tweakable(&self) -> Seq<S> {
        Seq::empty()
    }

    fn tweakable_values(&self) -> (r: Vec<S>) {
        Vec::new()
    }

    fn set_tweakable_value(&mut self, _index: usize, _value: S) -> (ok: bool) {
        false
    }
}

impl<S> TrainableNeuronModel<S> for OutputNeuron {
    open spec fn tweakable(&self) -> Seq<S> {
        Seq::empty()
    }

    fn tweakable_values(&self) -> (r: Vec<S>) {
        Vec::new()
    }

    fn set_tweakable_value(&mut self, _index: usize, _value: S) -> (ok: bool) {
        false
    }
}

impl<S: Copy> TrainableNeuronModel<S> for NeuronModel<S> {
    open spec fn tweakable(&self) -> Seq<S> {
        match self {
            NeuronModel::Input(m) => m.tweakable(),
            NeuronModel::Trivial(m) => m.tweakable(),
            NeuronModel::Output(m) => TrainableNeuronModel::<S>::tweakable(m),
        }
    }

    fn tweakable_values(&self) -> (r: Vec<S>) {
        match self {
            NeuronModel::Input(m) => m.tweakable_values(),
            NeuronModel::Trivial(m) => m.tweakable_values(),
            NeuronModel::Output(m) => TrainableNeuronModel::<S>::tweakable_values(m),
        }
    }

    fn set_tweakable_value(&mut self, index: usize, value: S) -> (ok: bool) {
        match self {
            NeuronModel::Trivial(m) => m.set_tweakable_value(index, value),
            _ => false,
        }
    }
}

impl<S: Copy> NeuronModel<S> {
    /// The value of a unit with this model for `inputs`.
    pub open spec fn value_for<A: Arithmetic<S>>(&self, inputs: Seq<S>, arith: &A) -> S {
        match self {
            NeuronModel::Input(m) => m.value,
            NeuronModel::Trivial(m) => arith.plus_spec(sum_spec(arith, inputs), m.bias),
            NeuronModel::Output(_) => sum_spec(arith, inputs),
        }
    }

    /// The unit's value for `inputs`: an input unit's held value, whatever
    /// the inputs; a trivial unit's sum of the inputs plus its bias; an
    /// output unit's sum of the inputs.
    pub fn calculate<A: Arithmetic<S>>(&self, inputs: &Vec<S>, arith: &A) -> (r: S)
        ensures
            r == self.value_for(inputs@, arith),
    {
        match self {
            NeuronModel::Input(m) => m.value,
            NeuronModel::Trivial(m) => arith.plus(sum(inputs, arith), m.bias),
            NeuronModel::Output(_) => sum(inputs, arith),
        }
    }

    /// The unit's value for `inputs` on live data. None of the units here
    /// has memory, so this is `calculate` and the unit stays as it is.
    pub fn calculate_mut<A: Arithmetic<S>>(&mut self, inputs: &Vec<S>, arith: &A) -> (r: S)
        ensures
            *final(self) == *old(self),
            r == old(self).value_for(inputs@, arith),
    {
        self.calculate(inputs, arith)
    }
}

impl<S> NeuronModel<S> {
    /// Whether this unit takes an externally assigned value.
    pub open spec fn accepts_external(&self) -> bool {
        self is Input
    }

    /// The model after `value` has been assigned to it from outside:
    /// an input unit holds the new value, every other unit is unchanged.
    pub open spec fn with_external(self, value: S) -> NeuronModel<S> {
        match self {
            NeuronModel::Input(_) => NeuronModel::Input(InputNeuron { value }),
            _ => self,
        }
    }

    /// Whether this unit takes an externally assigned value.
    pub fn is_input(&self) -> (r: bool)
        ensures
            r == self.accepts_external(),
    {
        match self {
            NeuronModel::Input(_) => true,
            _ => false,
        }
    }

    /// Assigns `value` to an input unit and returns true; any other unit is
    /// left unchanged and false is returned.
    pub fn set_external_value(&mut self, value: S) -> (accepted: bool)
        ensures
            accepted == old(self).accepts_external(),
            *final(self) == old(self).with_external(value),
    {
        match self {
            NeuronModel::Input(m) => {
                m.value = value;
                true
            },
            _ => false,
        }
    }
}

} // verus!

//! A single neuron with a logistic output, trained by gradient descent on
//! one example at a time.

use crate::activation::derivative;
use crate::activation::derivative_spec;
use crate::activation::sigmoid;
use crate::activation::sigmoid_spec;
use crate::error::MathError;
use crate::scalar::callable;
use crate::scalar::is_function;
use crate::scalar::lawful;
use crate::scalar::number;
use crate::scalar::can_add;
use crate::scalar::can_divide;
use crate::scalar::can_multiply;
use crate::scalar::can_negate;
use crate::scalar::total;
use crate::scalar::Scalar;
use vstd::prelude::*;
use vstd::std_specs::cmp::PartialEqSpec;
use vstd::std_specs::cmp::PartialOrdIs;
use vstd::std_specs::ops::AddSpec;
use vstd::std_specs::ops::DivSpec;
use vstd::std_specs::ops::MulSpec;
use vstd::std_specs::ops::SubSpec;

verus! {

/// What a neuron is made of: one weight for each input feature, a bias and
/// a learning rate.
pub struct Neuron<T> {
    pub weights: Seq<T>,
    pub bias: T,
    pub learning_rate: T,
}

/// The bias with the products of the first `n` inputs and their weights
/// added to it in the order of the indices.
pub open spec fn weighted_sum<T: Scalar>(weights: Seq<T>, bias: T, input: Seq<T>, n: nat) -> T
    decreases n,
{
    if n == 0 {
        bias
    } else {
        weighted_sum(weights, bias, input, (n - 1) as nat).add_spec(
            input[n - 1].mul_spec(weights[n - 1]),
        )
    }
}

/// The label that an output stands for: one from a half upwards, zero below.
pub open spec fn label_of<T: Scalar>(output: T) -> T {
    if output.is_ge(&number::<T>(1).div_spec(number::<T>(2))) {
        number::<T>(1)
    } else {
        number::<T>(0)
    }
}

impl<T: Scalar> Neuron<T> {
    /// The prediction for `input`: the logistic function of the weighted sum.
    pub open spec fn output<E: Fn(T) -> T>(self, input: Seq<T>, exp: &E) -> T {
        sigmoid_spec(weighted_sum(self.weights, self.bias, input, self.weights.len()), exp)
    }

    /// The neuron after one step of gradient descent on the example
    /// `(input, target)`. With `error` the target less the output and `delta`
    /// the slope of the logistic function at the output, weight `j` grows by
    /// `learning_rate * error * input[j] * delta` and the bias by
    /// `learning_rate * error * delta`.
    pub open spec fn step<E: Fn(T) -> T>(self, input: Seq<T>, target: T, exp: &E) -> Neuron<T> {
        let output = self.output(input, exp);
        let error = target.sub_spec(output);
        let delta = derivative_spec(output);
        let pull = self.learning_rate.mul_spec(error);
        Neuron {
            weights: Seq::new(
                self.weights.len(),
                |j: int| self.weights[j].add_spec(pull.mul_spec(input[j]).mul_spec(delta)),
            ),
            bias: self.bias.add_spec(pull.mul_spec(delta)),
            learning_rate: self.learning_rate,
        }
    }
}

/// The state of one pass over the examples: the neuron as trained so far, the
/// squared errors added up, and the numbers of examples classified
/// correctly and of examples seen, both counted in scalars.
pub struct Pass<T> {
    pub neuron: Neuron<T>,
    pub total_loss: T,
    pub correct: T,
    pub seen: T,
}

/// The pass that starts from `start` after its first `k` examples, taken in
/// their order. Each example is predicted, scored and then learned from.
pub open spec fn pass_prefix<T: Scalar, E: Fn(T) -> T>(
    start: Neuron<T>,
    inputs: Seq<Vec<T>>,
    targets: Seq<T>,
    exp: &E,
    k: nat,
) -> Pass<T>
    decreases k,
{
    if k == 0 {
        Pass {
            neuron: start,
            total_loss: number::<T>(0),
            correct: number::<T>(0),
            seen: number::<T>(0),
        }
    } else {
        let before = pass_prefix(start, inputs, targets, exp, (k - 1) as nat);
        let input = inputs[k - 1]@;
        let target = targets[k - 1];
        let output = before.neuron.output(input, exp);
        let error = target.sub_spec(output);
        Pass {
            neuron: before.neuron.step(input, target, exp),
            total_loss: before.total_loss.add_spec(error.mul_spec(error)),
            correct: if label_of(output).eq_spec(&target) {
                before.correct.add_spec(number::<T>(1))
            } else {
                before.correct
            },
            seen: before.seen.add_spec(number::<T>(1)),
        }
    }
}

/// A neuron together with the mean squared error and the accuracy of each
/// epoch it was trained for.
pub struct Training<T> {
    pub neuron: Neuron<T>,
    pub losses: Seq<T>,
    pub accuracies: Seq<T>,
}

/// The outcome of training `start` for `epochs` passes over the examples.
/// Each pass records its summed squared error and its count of correct
/// labels, each divided by the count of examples.
pub open spec fn training<T: Scalar, E: Fn(T) -> T>(
    start: Neuron<T>,
    inputs: Seq<Vec<T>>,
    targets: Seq<T>,
    exp: &E,
    epochs: nat,
) -> Training<T>
    decreases epochs,
{
    if epochs == 0 {
        Training { neuron: start, losses: Seq::empty(), accuracies: Seq::empty() }
    } else {
        let before = training(start, inputs, targets, exp, (epochs - 1) as nat);
        let pass = pass_prefix(before.neuron, inputs, targets, exp, inputs.len());
        Training {
            neuron: pass.neuron,
            losses: before.losses.push(pass.total_loss.div_spec(pass.seen)),
            accuracies: before.accuracies.push(pass.correct.div_spec(pass.seen)),
        }
    }
}

/// Training in two runs gives what training in one run gives: the neuron
/// after `a` and then `b` more epochs is the neuron after `a + b` epochs, and
/// the losses and accuracies of the two runs, one after the other, are those
/// of the one.
pub proof fn lemma_training_in_two_runs<T: Scalar, E: Fn(T) -> T>(
    start: Neuron<T>,
    inputs: Seq<Vec<T>>,
    targets: Seq<T>,
    exp: &E,
    a: nat,
    b: nat,
)
    ensures
        ({
            let first = training(start, inputs, targets, exp, a);
            let second = training(first.neuron, inputs, targets, exp, b);
            let whole = training(start, inputs, targets, exp, a + b);
            &&& whole.neuron == second.neuron
            &&& whole.losses == first.losses + second.losses
            &&& whole.accuracies == first.accuracies + second.accuracies
        }),
    decreases b,
{
    let first = training(start, inputs, targets, exp, a);
    let second = training(first.neuron, inputs, targets, exp, b);
    let whole = training(start, inputs, targets, exp, a + b);
    if b == 0 {
        assert(whole.losses =~= first.losses + second.losses);
        assert(whole.accuracies =~= first.accuracies + second.accuracies);
    } else {
        lemma_training_in_two_runs(start, inputs, targets, exp, a, (b - 1) as nat);
        let shorter = training(first.neuron, inputs, targets, exp, (b - 1) as nat);
        let before = training(start, inputs, targets, exp, (a + b - 1) as nat);
        assert(before.neuron == shorter.neuron);
        assert(whole.losses =~= first.losses + second.losses);
        assert(whole.accuracies =~= first.accuracies + second.accuracies);
    }
}

/// Every one of `inputs` has `width` features.
pub open spec fn all_of_width<T>(inputs: Seq<Vec<T>>, width: nat) -> bool {
    forall|i: int| 0 <= i < inputs.len() ==> (#[trigger] inputs[i])@.len() == width
}

/// The neuron that a run of numbers makes with a learning rate: the last
/// number is the bias, and those before it are the weights in their order.
pub open spec fn neuron_from<T>(learning_rate: T, draws: Seq<T>) -> Neuron<T> {
    Neuron { weights: draws.drop_last(), bias: draws.last(), learning_rate }
}

/// A neuron: a weight for each input feature, a bias and a learning rate.
pub struct NeuralNetwork<T> {
    weights: Vec<T>,
    bias: T,
    learning_rate: T,
}

impl<T> View for NeuralNetwork<T> {
    type V = Neuron<T>;

    closed spec fn view(&self) -> Neuron<T> {
        Neuron { weights: self.weights@, bias: self.bias, learning_rate: self.learning_rate }
    }
}

impl<T: Scalar> NeuralNetwork<T> {
    /// A neuron for inputs of `features` features, with the given learning
    /// rate. It calls `draw` once for each weight and once more, and makes of
    /// what came back the neuron that `from_draws` makes of it: with a `draw`
    /// that returns uniform random numbers from zero up to one, the neuron
    /// starts from such numbers.
    pub fn new<R: Fn() -> T>(learning_rate: T, features: usize, draw: &R) -> (network: Self)
        requires
            draw.requires(()),
        ensures
            network@.learning_rate == learning_rate,
            network@.weights.len() == features,
            exists|draws: Seq<T>|
                {
                    &&& draws.len() == features + 1
                    &&& forall|i: int| 0 <= i < draws.len() ==> draw.ensures((), #[trigger] draws[i])
                    &&& network@ == #[trigger] neuron_from(learning_rate, draws)
                },
    {
        let mut draws: Vec<T> = Vec::new();
        let mut i: usize = 0;
        while i < features
            invariant
                draw.requires(()),
                i <= features,
                draws@.len() == i,
                forall|k: int| 0 <= k < i ==> draw.ensures((), #[trigger] draws@[k]),
            decreases features - i,
        {
            draws.push(draw());
            i += 1;
        }
        draws.push(draw());
        Self::assemble(learning_rate, draws)
    }

    /// The neuron made of a run of numbers that is not empty.
    fn assemble(learning_rate: T, draws: Vec<T>) -> (network: Self)
        requires
            draws@.len() > 0,
        ensures
            network@ == neuron_from(learning_rate, draws@),
    {
        let mut weights = draws;
        let bias = weights[weights.len() - 1];
        weights.truncate(weights.len() - 1);
        NeuralNetwork { weights, bias, learning_rate }
    }

    /// The neuron made of a run of numbers, with the given learning rate:
    /// the last number is the bias, and those before it are the weights in
    /// their order. An empty run is refused.
    pub fn from_draws(learning_rate: T, draws: Vec<T>) -> (r: Result<Self, MathError>)
        ensures
            match r {
                Ok(network) => draws@.len() > 0 && network@ == neuron_from(learning_rate, draws@),
                Err(e) => draws@.len() == 0 && e == MathError::EmptyInput,
            },
    {
        if draws.len() == 0 {
            Err(MathError::EmptyInput)
        } else {
            Ok(Self::assemble(learning_rate, draws))
        }
    }

    /// The neuron with the given learning rate, weights and bias. It takes
    /// inputs of as many features as there are weights.
    pub fn with_parameters(learning_rate: T, weights: Vec<T>, bias: T) -> (network: Self)
        ensures
            network@ == (Neuron { weights: weights@, bias, learning_rate }),
    {
        NeuralNetwork { weights, bias, learning_rate }
    }

    /// The weights, one for each input feature.
    pub fn weights(&self) -> (weights: &Vec<T>)
        ensures
            weights@ == self@.weights,
    {
        &self.weights
    }

    /// The bias.
    pub fn bias(&self) -> (bias: T)
        ensures
            bias == self@.bias,
    {
        self.bias
    }

    /// The learning rate.
    pub fn learning_rate(&self) -> (rate: T)
        ensures
            rate == self@.learning_rate,
    {
        self.learning_rate
    }

    fn output_for<E: Fn(T) -> T>(&self, input: &[T], exp: &E) -> (output: T)
        requires
            can_add::<T>(),
            can_multiply::<T>(),
            can_negate::<T>(),
            can_divide::<T>(),
            callable(exp),
            input@.len() == self@.weights.len(),
        ensures
            lawful::<T>() && is_function(exp) ==> output == self@.output(input@, exp),
    {
        let n = self.weights.len();
        let mut sum = self.bias;
        let mut i: usize = 0;
        while i < n
            invariant
                can_add::<T>(),
                can_multiply::<T>(),
                n == self.weights@.len(),
                n == input@.len(),
                i <= n,
                lawful::<T>() ==> sum == weighted_sum(
                    self.weights@,
                    self.bias,
                    input@,
                    i as nat,
                ),
            decreases n - i,
        {
            sum = sum + input[i] * self.weights[i];
            i += 1;
        }
        sigmoid(sum, exp)
    }

    /// The prediction for `input`, with `exp` as the exponential. An input
    /// with another number of features than the neuron has weights is
    /// refused.
    pub fn predict<E: Fn(T) -> T>(&self, input: &[T], exp: &E) -> (r: Result<T, MathError>)
        requires
            can_add::<T>(),
            can_multiply::<T>(),
            can_negate::<T>(),
            can_divide::<T>(),
            callable(exp),
        ensures
            match r {
                Ok(output) => {
                    &&& input@.len() == self@.weights.len()
                    &&& lawful::<T>() && is_function(exp) ==> output == self@.output(input@, exp)
                },
                Err(e) => input@.len() != self@.weights.len() && e == MathError::DimensionMismatch,
            },
    {
        if input.len() != self.weights.len() {
            return Err(MathError::DimensionMismatch);
        }
        Ok(self.output_for(input, exp))
    }

    fn learn<E: Fn(T) -> T>(&mut self, input: &[T], target: T, exp: &E) -> (r: (T, T))
        requires
            total::<T>(),
            callable(exp),
            input@.len() == old(self)@.weights.len(),
        ensures
            final(self)@.weights.len() == old(self)@.weights.len(),
            final(self)@.learning_rate == old(self)@.learning_rate,
            lawful::<T>() && is_function(exp) ==> {
                &&& r.0 == old(self)@.output(input@, exp)
                &&& r.1 == target.sub_spec(r.0)
                &&& final(self)@ == old(self)@.step(input@, target, exp)
            },
    {
        let ghost before = self@;
        let output = self.output_for(input, exp);
        let error = target - output;
        let delta = derivative(output);
        let pull = self.learning_rate * error;
        let n = self.weights.len();
        let mut j: usize = 0;
        while j < n
            invariant
                total::<T>(),
                n == before.weights.len(),
                n == input@.len(),
                n == self.weights@.len(),
                j <= n,
                self.bias == before.bias,
                self.learning_rate == before.learning_rate,
                lawful::<T>() ==> pull == before.learning_rate.mul_spec(error),
                forall|k: int| j <= k < n ==> self.weights@[k] == before.weights[k],
                lawful::<T>() ==> forall|k: int|
                    0 <= k < j ==> self.weights@[k] == before.weights[k].add_spec(
                        pull.mul_spec(input@[k]).mul_spec(delta),
                    ),
            decreases n - j,
        {
            let moved = self.weights[j] + pull * input[j] * delta;
            self.weights.set(j, moved);
            j += 1;
        }
        self.bias = self.bias + pull * delta;
        proof {
            if lawful::<T>() && is_function(exp) {
                assert(self@.weights =~= before.step(input@, target, exp).weights);
            }
        }
        (output, error)
    }

    /// One step of gradient descent on the example `(input, target)`, with
    /// `exp` as the exponential. Returns the output before the step and the
    /// error, the target less that output. An input with another number of
    /// features than the neuron has weights is refused, and the neuron stays
    /// as it was.
    pub fn train_step<E: Fn(T) -> T>(&mut self, input: &[T], target: T, exp: &E) -> (r: Result<
        (T, T),
        MathError,
    >)
        requires
            total::<T>(),
            callable(exp),
        ensures
            final(self)@.weights.len() == old(self)@.weights.len(),
            final(self)@.learning_rate == old(self)@.learning_rate,
            match r {
                Ok((output, error)) => {
                    &&& input@.len() == old(self)@.weights.len()
                    &&& lawful::<T>() && is_function(exp) ==> {
                        &&& output == old(self)@.output(input@, exp)
                        &&& error == target.sub_spec(output)
                        &&& final(self)@ == old(self)@.step(input@, target, exp)
                    }
                },
                Err(e) => {
                    &&& input@.len() != old(self)@.weights.len()
                    &&& e == MathError::DimensionMismatch
                    &&& final(self)@ == old(self)@
                },
            },
    {
        if input.len() != self.weights.len() {
            return Err(MathError::DimensionMismatch);
        }
        Ok(self.learn(input, target, exp))
    }

    /// Whether every one of `inputs` has as many features as the neuron has
    /// weights.
    fn accepts_all(&self, inputs: &[Vec<T>]) -> (all: bool)
        ensures
            all == all_of_width(inputs@, self@.weights.len()),
    {
        let width = self.weights.len();
        let n = inputs.len();
        let mut i: usize = 0;
        while i < n
            invariant
                n == inputs@.len(),
                width == self.weights@.len(),
                i <= n,
                forall|k: int| 0 <= k < i ==> (#[trigger] inputs@[k])@.len() == width,
            decreases n - i,
        {
            if inputs[i].len() != width {
                return false;
            }
            i += 1;
        }
        true
    }

    /// One pass over the examples in their order: each is predicted, scored
    /// and learned from. Returns the mean squared error and the accuracy of
    /// the pass.
    fn run_epoch<E: Fn(T) -> T>(&mut self, inputs: &[Vec<T>], targets: &[T], exp: &E) -> (r: (T, T))
        requires
            total::<T>(),
            callable(exp),
            inputs@.len() == targets@.len(),
            all_of_width(inputs@, old(self)@.weights.len()),
        ensures
            final(self)@.weights.len() == old(self)@.weights.len(),
            final(self)@.learning_rate == old(self)@.learning_rate,
            lawful::<T>() && is_function(exp) ==> {
                let pass = pass_prefix(old(self)@, inputs@, targets@, exp, inputs@.len());
                &&& final(self)@ == pass.neuron
                &&& r.0 == pass.total_loss.div_spec(pass.seen)
                &&& r.1 == pass.correct.div_spec(pass.seen)
            },
    {
        let ghost start = self@;
        let n = inputs.len();
        let one = T::from(1u8);
        let half = one / T::from(2u8);
        let mut total_loss = T::from(0u8);
        let mut correct = T::from(0u8);
        let mut seen = T::from(0u8);
        let mut i: usize = 0;
        while i < n
            invariant
                total::<T>(),
                callable(exp),
                n == inputs@.len(),
                n == targets@.len(),
                i <= n,
                all_of_width(inputs@, start.weights.len()),
                self@.weights.len() == start.weights.len(),
                self@.learning_rate == start.learning_rate,
                lawful::<T>() ==> one == number::<T>(1) && half == number::<T>(1).div_spec(
                    number::<T>(2),
                ),
                lawful::<T>() && is_function(exp) ==> (Pass {
                    neuron: self@,
                    total_loss,
                    correct,
                    seen,
                }) == pass_prefix(start, inputs@, targets@, exp, i as nat),
            decreases n - i,
        {
            let target = targets[i];
            let (output, error) = self.learn(inputs[i].as_slice(), target, exp);
            total_loss = total_loss + error * error;
            let label = if output >= half {
                one
            } else {
                T::from(0u8)
            };
            if label == target {
                correct = correct + one;
            }
            seen = seen + one;
            i += 1;
        }
        (total_loss / seen, correct / seen)
    }

    /// Trains the neuron for `epochs` passes over the examples, each pass in
    /// the order of the examples, with `exp` as the exponential. Returns the
    /// mean squared error of each pass and the accuracy of each pass: the
    /// share of examples whose output, cut at a half, gave the target.
    ///
    /// The examples are refused, and the neuron stays as it was, unless
    /// there is one target for each input, at least one example, and as many
    /// features in every input as the neuron has weights.
    pub fn train<E: Fn(T) -> T>(
        &mut self,
        inputs: &[Vec<T>],
        targets: &[T],
        epochs: usize,
        exp: &E,
    ) -> (r: Result<(Vec<T>, Vec<T>), MathError>)
        requires
            total::<T>(),
            callable(exp),
        ensures
            final(self)@.weights.len() == old(self)@.weights.len(),
            final(self)@.learning_rate == old(self)@.learning_rate,
            match r {
                Ok((losses, accuracies)) => {
                    &&& inputs@.len() == targets@.len()
                    &&& inputs@.len() > 0
                    &&& all_of_width(inputs@, old(self)@.weights.len())
                    &&& losses@.len() == epochs
                    &&& accuracies@.len() == epochs
                    &&& lawful::<T>() && is_function(exp) ==> {
                        let done = training(old(self)@, inputs@, targets@, exp, epochs as nat);
                        &&& final(self)@ == done.neuron
                        &&& losses@ == done.losses
                        &&& accuracies@ == done.accuracies
                    }
                },
                Err(e) => {
                    &&& final(self)@ == old(self)@
                    &&& !(inputs@.len() == targets@.len() && inputs@.len() > 0 && all_of_width(
                        inputs@,
                        old(self)@.weights.len(),
                    ))
                    &&& e == if inputs@.len() == 0 && targets@.len() == 0 {
                        MathError::EmptyInput
                    } else {
                        MathError::DimensionMismatch
                    }
                },
            },
    {
        let n = inputs.len();
        if targets.len() != n {
            return Err(MathError::DimensionMismatch);
        }
        if n == 0 {
            return Err(MathError::EmptyInput);
        }
        if !self.accepts_all(inputs) {
            return Err(MathError::DimensionMismatch);
        }
        let ghost start = self@;
        let mut losses: Vec<T> = Vec::new();
        let mut accuracies: Vec<T> = Vec::new();
        let mut epoch: usize = 0;
        while epoch < epochs
            invariant
                total::<T>(),
                callable(exp),
                inputs@.len() == targets@.len(),
                all_of_width(inputs@, start.weights.len()),
                self@.weights.len() == start.weights.len(),
                self@.learning_rate == start.learning_rate,
                epoch <= epochs,
                losses@.len() == epoch,
                accuracies@.len() == epoch,
                lawful::<T>() && is_function(exp) ==> {
                    let done = training(start, inputs@, targets@, exp, epoch as nat);
                    &&& self@ == done.neuron
                    &&& losses@ == done.losses
                    &&& accuracies@ == done.accuracies
                },
            decreases epochs - epoch,
        {
            let (loss, accuracy) = self.run_epoch(inputs, targets, exp);
            losses.push(loss);
            accuracies.push(accuracy);
            epoch += 1;
        }
        Ok((losses, accuracies))
    }
}

} // verus!

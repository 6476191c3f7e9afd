//! The steps around training: its options, its end, and whether the outcome is accepted.

use crate::model::{have_magnitude, is_small, RustFeaseModel, ValidationReport};
use crate::order::{ordered_type, outranks};
use crate::weighting::WeightingConfig;
use std::ops::Neg;
use vstd::prelude::*;
use vstd::std_specs::cmp::PartialOrdIs;
use vstd::std_specs::ops::NegSpec;
use vstd::string::StringExecFns;

verus! {

/// Options of a training run that bear on weights.
pub struct TrainOptions<V> {
    pub decay_rate: V,
    pub ips_alpha: V,
    pub sparsity_threshold: V,
    pub event_weights: Option<Vec<(String, V)>>,
}

/// Which option is negative.
#[derive(Debug, Clone, Copy, PartialEq, Eq, Structural)]
pub enum OptionError {
    DecayRate,
    IpsAlpha,
    SparsityThreshold,
}

impl OptionError {
    /// A description for the caller.
    pub fn message(&self) -> (text: String)
        ensures
            text@ == match *self {
                OptionError::DecayRate => "decay_rate must be >= 0.0"@,
                OptionError::IpsAlpha => "ips_alpha must be >= 0.0"@,
                OptionError::SparsityThreshold => "sparsity_threshold must be >= 0.0"@,
            },
    {
        match self {
            OptionError::DecayRate => "decay_rate must be >= 0.0".to_owned(),
            OptionError::IpsAlpha => "ips_alpha must be >= 0.0".to_owned(),
            OptionError::SparsityThreshold => "sparsity_threshold must be >= 0.0".to_owned(),
        }
    }
}

/// The first option that is negative, if any.
pub open spec fn negative_option<V: PartialOrd>(
    options: TrainOptions<V>,
    zero: V,
) -> Option<OptionError> {
    if options.decay_rate.is_lt(&zero) {
        Some(OptionError::DecayRate)
    } else if options.ips_alpha.is_lt(&zero) {
        Some(OptionError::IpsAlpha)
    } else if options.sparsity_threshold.is_lt(&zero) {
        Some(OptionError::SparsityThreshold)
    } else {
        None
    }
}

/// Some option asks for weighting.
pub open spec fn asks_for_weighting<V: PartialOrd>(options: TrainOptions<V>, zero: V) -> bool {
    outranks(options.decay_rate, zero) || outranks(options.ips_alpha, zero) || outranks(
        options.sparsity_threshold,
        zero,
    ) || options.event_weights is Some
}

/// The weighting that the options ask for; a negative option is refused.
pub fn weighting_of<V: Copy + PartialOrd>(options: TrainOptions<V>, zero: V) -> (config: Result<
    Option<WeightingConfig<V>>,
    OptionError,
>)
    requires
        ordered_type::<V>(),
    ensures
        match config {
            Err(error) => negative_option(options, zero) == Some(error),
            Ok(None) => negative_option(options, zero) is None && !asks_for_weighting(
                options,
                zero,
            ),
            Ok(Some(made)) => {
                &&& negative_option(options, zero) is None
                &&& asks_for_weighting(options, zero)
                &&& made == (WeightingConfig {
                    event_weights: options.event_weights,
                    decay_rate: options.decay_rate,
                    ips_alpha: options.ips_alpha,
                    sparsity_threshold: options.sparsity_threshold,
                })
            },
        },
{
    if options.decay_rate < zero {
        return Err(OptionError::DecayRate);
    }
    if options.ips_alpha < zero {
        return Err(OptionError::IpsAlpha);
    }
    if options.sparsity_threshold < zero {
        return Err(OptionError::SparsityThreshold);
    }
    if options.decay_rate > zero || options.ips_alpha > zero || options.sparsity_threshold > zero
        || options.event_weights.is_some() {
        return Ok(
            Some(
                WeightingConfig {
                    event_weights: options.event_weights,
                    decay_rate: options.decay_rate,
                    ips_alpha: options.ips_alpha,
                    sparsity_threshold: options.sparsity_threshold,
                },
            ),
        );
    }
    Ok(None)
}

/// The weights after the end of training: small ones are zeroed where a threshold is set.
pub open spec fn kept_weights<V: PartialOrd + Neg<Output = V>>(
    weights: Seq<V>,
    threshold: V,
    zero: V,
) -> Seq<V> {
    if outranks(threshold, zero) {
        weights.map_values(
            |v: V|
                if is_small(v, threshold) {
                    zero
                } else {
                    v
                },
        )
    } else {
        weights
    }
}

/// Ends a training run: the model remembers its weighting, and small weights are zeroed where a
/// threshold is set.
pub fn complete<V: Copy + PartialOrd + Neg<Output = V>>(
    model: RustFeaseModel<V>,
    weighting_config: Option<WeightingConfig<V>>,
    sparsity_threshold: V,
    zero: V,
) -> (done: RustFeaseModel<V>)
    requires
        have_magnitude(model.s_matrix.data@),
    ensures
        done.s_matrix.nrows == model.s_matrix.nrows,
        done.s_matrix.ncols == model.s_matrix.ncols,
        done.s_matrix.data@ == kept_weights(model.s_matrix.data@, sparsity_threshold, zero),
        done == (RustFeaseModel { s_matrix: done.s_matrix, weighting_config, ..model }),
{
    let mut done = model;
    done.weighting_config = weighting_config;
    if sparsity_threshold > zero {
        let _pruned: usize = done.prune_sparse(sparsity_threshold, zero);
    }
    done
}

/// The first `n` messages, each on a line of its own.
pub open spec fn lines_of(messages: Seq<String>, n: int) -> Seq<char>
    decreases n,
{
    if n <= 0 {
        Seq::empty()
    } else if n == 1 {
        messages[0]@
    } else {
        lines_of(messages, n - 1) + "\n"@ + messages[n - 1]@
    }
}

/// Accepts a model that passed its self-check; else the headline with the messages below it.
pub fn accept(report: &ValidationReport, headline: &str) -> (verdict: Result<(), String>)
    ensures
        match verdict {
            Ok(_) => report.passed,
            Err(text) => !report.passed && text@ == headline@ + "\n"@ + lines_of(
                report.messages@,
                report.messages@.len() as int,
            ),
        },
{
    if report.passed {
        return Ok(());
    }
    let mut text: String = headline.to_owned();
    text.append("\n");
    let ghost start = headline@ + "\n"@;
    assert(text@ =~= start + lines_of(report.messages@, 0));
    let mut i: usize = 0;
    while i < report.messages.len()
        invariant
            i <= report.messages@.len(),
            text@ == start + lines_of(report.messages@, i as int),
        decreases report.messages@.len() - i,
    {
        if i > 0 {
            text.append("\n");
        }
        text.append(report.messages[i].as_str());
        assert(text@ =~= start + lines_of(report.messages@, i + 1));
        i = i + 1;
    }
    Err(text)
}

/// The values of one search parameter: those given, or the default where there is none.
pub fn axis<T: Copy>(given: Option<Vec<T>>, default: T) -> (values: Vec<T>)
    ensures
        match given {
            Some(list) => if list@.len() > 0 {
                values == list
            } else {
                values@ == seq![default]
            },
            None => values@ == seq![default],
        },
{
    if let Some(list) = given {
        if list.len() > 0 {
            return list;
        }
    }
    let mut values: Vec<T> = Vec::new();
    values.push(default);
    assert(values@ =~= seq![default]);
    values
}

/// An option below zero is refused, the rate of decay before the exponent and that before the
/// threshold; without one, weighting is asked for exactly where an option is greater than zero or
/// there are event weights.
pub proof fn options_are_held_against_zero<V: PartialOrd>(options: TrainOptions<V>, zero: V)
    ensures
        negative_option(options, zero) == Some(OptionError::DecayRate)
            <==> options.decay_rate.is_lt(&zero),
        negative_option(options, zero) == Some(OptionError::IpsAlpha) <==> !options.decay_rate.is_lt(
            &zero,
        ) && options.ips_alpha.is_lt(&zero),
        negative_option(options, zero) == Some(OptionError::SparsityThreshold)
            <==> !options.decay_rate.is_lt(&zero) && !options.ips_alpha.is_lt(&zero)
            && options.sparsity_threshold.is_lt(&zero),
        negative_option(options, zero) is None <==> !options.decay_rate.is_lt(&zero)
            && !options.ips_alpha.is_lt(&zero) && !options.sparsity_threshold.is_lt(&zero),
        asks_for_weighting(options, zero) <==> options.decay_rate.is_gt(&zero)
            || options.ips_alpha.is_gt(&zero) || options.sparsity_threshold.is_gt(&zero)
            || options.event_weights is Some,
{
}

/// A threshold greater than zero zeroes every weight that is below it together with its negation;
/// every other weight stays, and without such a threshold all do.
pub proof fn kept_weights_are_not_below_the_threshold<V: PartialOrd + Neg<Output = V>>(
    weights: Seq<V>,
    threshold: V,
    zero: V,
    i: int,
)
    requires
        0 <= i < weights.len(),
    ensures
        kept_weights(weights, threshold, zero).len() == weights.len(),
        threshold.is_gt(&zero) && threshold.is_gt(&weights[i]) && threshold.is_gt(
            &weights[i].neg_spec(),
        ) ==> kept_weights(weights, threshold, zero)[i] == zero,
        !threshold.is_gt(&zero) || !threshold.is_gt(&weights[i]) || !threshold.is_gt(
            &weights[i].neg_spec(),
        ) ==> kept_weights(weights, threshold, zero)[i] == weights[i],
{
}

/// Messages stand on lines of their own, in order: what comes before, a line break, the next one.
pub proof fn messages_stand_on_lines(messages: Seq<String>, n: int)
    requires
        1 < n <= messages.len(),
    ensures
        lines_of(messages, n) == lines_of(messages, n - 1) + "\n"@ + messages[n - 1]@,
        lines_of(messages, 1) == messages[0]@,
{
}

/// Pruning treats a weight and its negation alike: with whole numbers, both are zeroed where their
/// size is below the threshold, and both stay where it is not.
pub proof fn pruning_ignores_signs(weights: Seq<i64>, threshold: i64, i: int, j: int)
    requires
        0 <= i < weights.len(),
        0 <= j < weights.len(),
        weights[i] >= 0,
        weights[j] == -weights[i],
        threshold > 0,
    ensures
        weights[i] < threshold ==> kept_weights(weights, threshold, 0i64)[i] == 0 && kept_weights(
            weights,
            threshold,
            0i64,
        )[j] == 0,
        weights[i] >= threshold ==> kept_weights(weights, threshold, 0i64)[i] == weights[i]
            && kept_weights(weights, threshold, 0i64)[j] == weights[j],
{
}

} // verus!

use vstd::prelude::*;

use crate::text::{chars_eq, string_of};

verus! {

/// The function every node of a network applies to its weighted input sum.
#[derive(Clone, Copy, Debug, PartialEq, Eq, Structural)]
pub enum ActivationFunction {
    Sigmoid,
    Linear,
    Tanh,
    Step,
}

/// The canonical name under which a model file records the activation function.
pub open spec fn spec_name(a: ActivationFunction) -> Seq<char> {
    match a {
        ActivationFunction::Sigmoid => seq!['s', 'i', 'g', 'm', 'o', 'i', 'd'],
        ActivationFunction::Linear => seq!['l', 'i', 'n', 'e', 'a', 'r'],
        ActivationFunction::Tanh => seq!['t', 'a', 'n', 'h'],
        ActivationFunction::Step => seq!['s', 't', 'e', 'p'],
    }
}

/// The activation function whose canonical name is `line`, if any.
pub open spec fn spec_from_name(line: Seq<char>) -> Option<ActivationFunction> {
    if line == spec_name(ActivationFunction::Sigmoid) {
        Some(ActivationFunction::Sigmoid)
    } else if line == spec_name(ActivationFunction::Linear) {
        Some(ActivationFunction::Linear)
    } else if line == spec_name(ActivationFunction::Tanh) {
        Some(ActivationFunction::Tanh)
    } else if line == spec_name(ActivationFunction::Step) {
        Some(ActivationFunction::Step)
    } else {
        None
    }
}

impl ActivationFunction {
    /// The characters of the canonical name.
    pub fn name_chars(&self) -> (r: Vec<char>)
        ensures
            r@ == spec_name(*self),
    {
        let r = match self {
            ActivationFunction::Sigmoid => vec!['s', 'i', 'g', 'm', 'o', 'i', 'd'],
            ActivationFunction::Linear => vec!['l', 'i', 'n', 'e', 'a', 'r'],
            ActivationFunction::Tanh => vec!['t', 'a', 'n', 'h'],
            ActivationFunction::Step => vec!['s', 't', 'e', 'p'],
        };
        assert(r@ =~= spec_name(*self));
        r
    }

    /// The canonical name, as a model file records it.
    pub fn name(&self) -> (r: String)
        ensures
            r@ == spec_name(*self),
    {
        string_of(&self.name_chars())
    }

    /// The activation function whose canonical name is `line`, if any.
    pub fn from_name(line: &Vec<char>) -> (r: Option<ActivationFunction>)
        ensures
            r == spec_from_name(line@),
    {
        if chars_eq(line, &ActivationFunction::Sigmoid.name_chars()) {
            Some(ActivationFunction::Sigmoid)
        } else if chars_eq(line, &ActivationFunction::Linear.name_chars()) {
            Some(ActivationFunction::Linear)
        } else if chars_eq(line, &ActivationFunction::Tanh.name_chars()) {
            Some(ActivationFunction::Tanh)
        } else if chars_eq(line, &ActivationFunction::Step.name_chars()) {
            Some(ActivationFunction::Step)
        } else {
            None
        }
    }
}

/// Reading back the name of an activation function gives that function.
pub proof fn lemma_name_round_trip(a: ActivationFunction)
    ensures
        spec_from_name(spec_name(a)) == Some(a),
{
    // The names differ in length, but for tanh and step, which differ in their first letter.
    assert(spec_name(ActivationFunction::Tanh)[0] != spec_name(ActivationFunction::Step)[0]);
}

} // verus!

use vstd::prelude::*;

use rayon::iter::{IndexedParallelIterator, IntoParallelRefIterator, ParallelIterator};

use crate::topology::ConfigError;

verus! {

/// The label of an answer node, and of a sample. A floating-point label is held as its IEEE 754
/// bit pattern, so two such labels are equal when their bits are.
#[derive(Clone, Debug, PartialEq)]
pub enum Category {
    Boolean(bool),
    Integer(i64),
    Float(u32),
    Text(String),
}

/// Two labels are the same: same variant, same value.
pub open spec fn same_category(a: Category, b: Category) -> bool {
    match (a, b) {
        (Category::Boolean(x), Category::Boolean(y)) => x == y,
        (Category::Integer(x), Category::Integer(y)) => x == y,
        (Category::Float(x), Category::Float(y)) => x == y,
        (Category::Text(x), Category::Text(y)) => x@ == y@,
        _ => false,
    }
}

impl Category {
    /// Whether `self` and `other` are the same label.
    pub fn matches(&self, other: &Category) -> (r: bool)
        ensures
            r == same_category(*self, *other),
    {
        match (self, other) {
            (Category::Boolean(x), Category::Boolean(y)) => *x == *y,
            (Category::Integer(x), Category::Integer(y)) => *x == *y,
            (Category::Float(x), Category::Float(y)) => *x == *y,
            (Category::Text(x), Category::Text(y)) => *x == *y,
            _ => false,
        }
    }
}

/// Relies on rayon's `par_iter().map(..).collect_into_vec(..)` on a slice: an indexed parallel
/// iterator collects one result per item, in the order of the items.
#[verifier::external_body]
fn par_matches(categories: &Vec<Category>, label: &Category) -> (r: Vec<bool>)
    ensures
        r@.len() == categories@.len(),
        forall|i: int| 0 <= i < r@.len() ==> r@[i] == same_category(#[trigger] categories@[i], *label),
{
    let mut r = Vec::new();
    categories.par_iter().map(|c| c.matches(label)).collect_into_vec(&mut r);
    r
}

/// Binds `categories` to the answer nodes by position: category `i` to answer node `i`. Fails
/// unless there is exactly one category per answer node.
pub fn categorize(answer_count: usize, categories: Vec<Category>) -> (r: Result<Vec<Category>, ConfigError>)
    ensures
        r is Ok <==> categories@.len() == answer_count,
        r matches Ok(v) ==> v@ == categories@,
        r is Err ==> r == Err::<Vec<Category>, ConfigError>(
            ConfigError::CategoryCountMismatch { expected: answer_count, found: categories@.len() as usize },
        ),
{
    if categories.len() == answer_count {
        Ok(categories)
    } else {
        Err(ConfigError::CategoryCountMismatch { expected: answer_count, found: categories.len() })
    }
}

/// The expected answer of each answer node for a sample labelled `label`: true exactly for the
/// nodes bound to that label.
pub fn assign_answers(categories: &Vec<Category>, label: &Category) -> (r: Vec<bool>)
    ensures
        r@.len() == categories@.len(),
        forall|i: int| 0 <= i < r@.len() ==> r@[i] == same_category(#[trigger] categories@[i], *label),
{
    par_matches(categories, label)
}

} // verus!

//! Comparing predicted labels with the true ones.
//!
//! Accuracy is kept as the exact ratio of two counts, the agreements over the
//! number of labels.

use vstd::prelude::*;
use crate::error::CustomError;

verus! {

/// A share of correct predictions, `correct` out of `total`.
#[derive(Clone, Copy, Debug, PartialEq, Eq, Structural)]
pub struct Accuracy {
    pub correct: usize,
    pub total: usize,
}

/// The number of positions at which two label sequences agree.
pub open spec fn agreements(predicted: Seq<usize>, actual: Seq<usize>) -> nat
    decreases predicted.len(),
{
    if predicted.len() == 0 || actual.len() == 0 {
        0
    } else {
        agreements(predicted.drop_last(), actual.drop_last()) + if predicted.last()
            == actual.last() {
            1nat
        } else {
            0nat
        }
    }
}

/// `order` names every position below its length exactly once.
pub open spec fn is_permutation(order: Seq<int>) -> bool {
    &&& forall|i: int| 0 <= i < order.len() ==> 0 <= #[trigger] order[i] < order.len()
    &&& forall|i: int, j: int|
        0 <= i < j < order.len() ==> #[trigger] order[i] != #[trigger] order[j]
}

/// The labels taken in the given order.
pub open spec fn reordered(labels: Seq<usize>, order: Seq<int>) -> Seq<usize> {
    Seq::new(order.len(), |i: int| labels[order[i]])
}

impl Accuracy {
    /// Every prediction was right.
    pub open spec fn is_perfect(self) -> bool {
        self.correct == self.total
    }

    /// The ratio is a share: of at least one label, and not above one.
    pub open spec fn well_formed(self) -> bool {
        0 < self.total && self.correct <= self.total
    }
}

/// Accuracy is a share: the agreements never outnumber the labels.
pub proof fn lemma_agreements_bound(predicted: Seq<usize>, actual: Seq<usize>)
    ensures
        agreements(predicted, actual) <= predicted.len(),
        agreements(predicted, actual) <= actual.len(),
    decreases predicted.len(),
{
    if predicted.len() > 0 && actual.len() > 0 {
        lemma_agreements_bound(predicted.drop_last(), actual.drop_last());
    }
}

/// Counts the agreements of predicted and actual labels.
///
/// Fails with `LengthMismatch` where the two differ in length, and with
/// `EmptyInput` where both are empty.
pub fn calculate_accuracy(predictions: &Vec<usize>, target: &Vec<usize>) -> (r: Result<
    Accuracy,
    CustomError,
>)
    ensures
        r == if predictions@.len() != target@.len() {
            Err::<Accuracy, CustomError>(CustomError::LengthMismatch)
        } else if predictions@.len() == 0 {
            Err::<Accuracy, CustomError>(CustomError::EmptyInput)
        } else {
            Ok::<Accuracy, CustomError>(
                Accuracy {
                    correct: agreements(predictions@, target@) as usize,
                    total: predictions@.len() as usize,
                },
            )
        },
        r matches Ok(accuracy) ==> accuracy.well_formed(),
        r matches Ok(accuracy) ==> (predictions@ == target@ ==> accuracy.is_perfect()),
{
    let n: usize = predictions.len();
    if n != target.len() {
        return Err(CustomError::LengthMismatch);
    }
    if n == 0 {
        return Err(CustomError::EmptyInput);
    }
    let mut correct: usize = 0;
    let mut i: usize = 0;
    while i < n
        invariant
            n == predictions@.len(),
            n == target@.len(),
            i <= n,
            correct <= i,
            correct == agreements(predictions@.subrange(0, i as int), target@.subrange(0, i as int)),
        decreases n - i,
    {
        assert(predictions@.subrange(0, i + 1).drop_last() =~= predictions@.subrange(0, i as int));
        assert(target@.subrange(0, i + 1).drop_last() =~= target@.subrange(0, i as int));
        if predictions[i] == target[i] {
            correct += 1;
        }
        i += 1;
    }
    proof {
        assert(predictions@.subrange(0, n as int) =~= predictions@);
        assert(target@.subrange(0, n as int) =~= target@);
        if predictions@ == target@ {
            lemma_accuracy_of_self(predictions@);
        }
    }
    Ok(Accuracy { correct, total: n })
}

/// Labels agree with themselves at every position: predictions that equal the
/// truth are wholly accurate.
pub proof fn lemma_accuracy_of_self(labels: Seq<usize>)
    ensures
        agreements(labels, labels) == labels.len(),
    decreases labels.len(),
{
    if labels.len() > 0 {
        lemma_accuracy_of_self(labels.drop_last());
    }
}

/// Accuracy does not depend on which sequence is called the prediction.
pub proof fn lemma_accuracy_symmetric(predicted: Seq<usize>, actual: Seq<usize>)
    ensures
        agreements(predicted, actual) == agreements(actual, predicted),
    decreases predicted.len(),
{
    if predicted.len() > 0 && actual.len() > 0 {
        lemma_accuracy_symmetric(predicted.drop_last(), actual.drop_last());
    }
}

/// Taking one position out of both sequences takes its agreement out of the count.
proof fn lemma_agreements_remove(predicted: Seq<usize>, actual: Seq<usize>, k: int)
    requires
        predicted.len() == actual.len(),
        0 <= k < predicted.len(),
    ensures
        agreements(predicted, actual) == agreements(predicted.remove(k), actual.remove(k))
            + if predicted[k] == actual[k] {
            1nat
        } else {
            0nat
        },
    decreases predicted.len(),
{
    let n = predicted.len() as int;
    if k == n - 1 {
        assert(predicted.remove(k) =~= predicted.drop_last());
        assert(actual.remove(k) =~= actual.drop_last());
    } else {
        lemma_agreements_remove(predicted.drop_last(), actual.drop_last(), k);
        assert(predicted.remove(k).drop_last() =~= predicted.drop_last().remove(k));
        assert(actual.remove(k).drop_last() =~= actual.drop_last().remove(k));
        assert(predicted.remove(k).last() == predicted.last());
        assert(actual.remove(k).last() == actual.last());
    }
}

/// Accuracy is the same after both sequences are put into one and the same
/// new order.
pub proof fn lemma_accuracy_permutation(predicted: Seq<usize>, actual: Seq<usize>, order: Seq<int>)
    requires
        predicted.len() == actual.len(),
        order.len() == predicted.len(),
        is_permutation(order),
    ensures
        agreements(reordered(predicted, order), reordered(actual, order)) == agreements(
            predicted,
            actual,
        ),
    decreases predicted.len(),
{
    let n = predicted.len() as int;
    if n > 0 {
        // The last position of the new order came from `source`.
        let source = order[n - 1];
        let rest = Seq::new(
            (n - 1) as nat,
            |i: int|
                if order[i] < source {
                    order[i]
                } else {
                    order[i] - 1
                },
        );
        assert(is_permutation(rest)) by {
            assert forall|i: int| 0 <= i < rest.len() implies 0 <= #[trigger] rest[i]
                < rest.len() by {
                assert(order[i] != order[n - 1]);
            }
            assert forall|i: int, j: int| 0 <= i < j < rest.len() implies #[trigger] rest[i]
                != #[trigger] rest[j] by {
                assert(order[i] != order[j]);
                assert(order[i] != order[n - 1]);
                assert(order[j] != order[n - 1]);
            }
        }
        let p = predicted.remove(source);
        let a = actual.remove(source);
        lemma_accuracy_permutation(p, a, rest);
        lemma_agreements_remove(predicted, actual, source);
        assert(reordered(predicted, order).drop_last() =~= reordered(p, rest)) by {
            assert forall|i: int| 0 <= i < n - 1 implies reordered(predicted, order)[i]
                == reordered(p, rest)[i] by {
                assert(order[i] != order[n - 1]);
            }
        }
        assert(reordered(actual, order).drop_last() =~= reordered(a, rest)) by {
            assert forall|i: int| 0 <= i < n - 1 implies reordered(actual, order)[i] == reordered(
                a,
                rest,
            )[i] by {
                assert(order[i] != order[n - 1]);
            }
        }
    }
}

} // verus!

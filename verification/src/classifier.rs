//! What is decided about a training set and about rows to classify before
//! they reach the Gaussian naive Bayes estimator.
//!
//! The estimator itself works in floating point and is not part of this
//! library. What the labels and the shape of the data fix is settled here: that
//! rows and labels pair up, that every row has the model's width, which classes
//! there are, and how often each occurs. A class's prior is its count over the
//! number of samples.

use vstd::prelude::*;
use crate::error::CustomError;
use crate::evaluation::{agreements, Accuracy};
use crate::features::{features_of, labels_of, rows_of};
use crate::number::Decimal;
use crate::parser::StockData;

verus! {

/// A class and the number of training labels that name it.
#[derive(Clone, Copy, Debug, PartialEq, Eq, Structural)]
pub struct ClassCount {
    pub label: usize,
    pub count: usize,
}

/// What a training set fixes of the model trained on it.
#[derive(Debug)]
pub struct TrainingSummary {
    /// The width of every training row.
    pub dimension: usize,
    /// The number of training rows.
    pub samples: usize,
    /// The classes seen, by ascending label.
    pub classes: Vec<ClassCount>,
}

/// The number of labels that name `class`.
pub open spec fn occurrences(labels: Seq<usize>, class: usize) -> nat
    decreases labels.len(),
{
    if labels.len() == 0 {
        0
    } else {
        occurrences(labels.drop_last(), class) + if labels.last() == class {
            1nat
        } else {
            0nat
        }
    }
}

/// The labels of the classes rise strictly from first to last.
pub open spec fn ascending(classes: Seq<ClassCount>) -> bool {
    forall|i: int, j: int|
        0 <= i < j < classes.len() ==> (#[trigger] classes[i]).label < (#[trigger] classes[j]).label
}

/// The classes are those that occur among the labels, each once, by ascending
/// label and with the number of its occurrences.
pub open spec fn is_census(classes: Seq<ClassCount>, labels: Seq<usize>) -> bool {
    &&& ascending(classes)
    &&& forall|i: int|
        0 <= i < classes.len() ==> (#[trigger] classes[i]).count > 0 && classes[i].count
            == occurrences(labels, classes[i].label)
    &&& forall|k: int|
        0 <= k < labels.len() ==> exists|i: int|
            0 <= i < classes.len() && (#[trigger] classes[i]).label == #[trigger] labels[k]
}

/// At least two distinct labels occur.
pub open spec fn has_two_classes(labels: Seq<usize>) -> bool {
    exists|i: int, j: int|
        0 <= i < labels.len() && 0 <= j < labels.len() && #[trigger] labels[i]
            != #[trigger] labels[j]
}

/// Every row is `width` wide.
pub open spec fn uniform_width(rows: Seq<Seq<Decimal>>, width: nat) -> bool {
    forall|i: int| 0 <= i < rows.len() ==> (#[trigger] rows[i]).len() == width
}

/// Why a training set is refused, if it is: the first of a number of rows
/// other than the number of labels, rows of unequal width, and fewer than two
/// classes.
pub open spec fn training_defect(rows: Seq<Seq<Decimal>>, labels: Seq<usize>) -> Option<
    CustomError,
> {
    if rows.len() != labels.len() {
        Some(CustomError::ShapeMismatch)
    } else if rows.len() > 0 && !uniform_width(rows, rows[0].len()) {
        Some(CustomError::DimensionMismatch)
    } else if !has_two_classes(labels) {
        Some(CustomError::InsufficientClasses)
    } else {
        None
    }
}

/// A class occurs no more often than there are labels.
proof fn lemma_occurrences_bound(labels: Seq<usize>, class: usize)
    ensures
        occurrences(labels, class) <= labels.len(),
    decreases labels.len(),
{
    if labels.len() > 0 {
        lemma_occurrences_bound(labels.drop_last(), class);
    }
}

/// A class that no label names occurs zero times.
proof fn lemma_occurrences_absent(labels: Seq<usize>, class: usize)
    requires
        forall|k: int| 0 <= k < labels.len() ==> labels[k] != class,
    ensures
        occurrences(labels, class) == 0,
    decreases labels.len(),
{
    if labels.len() > 0 {
        lemma_occurrences_absent(labels.drop_last(), class);
    }
}

/// A class that occurs is named by some label.
proof fn lemma_occurrences_present(labels: Seq<usize>, class: usize) -> (k: int)
    requires
        occurrences(labels, class) > 0,
    ensures
        0 <= k < labels.len(),
        labels[k] == class,
    decreases labels.len(),
{
    if labels.last() == class {
        labels.len() - 1
    } else {
        lemma_occurrences_present(labels.drop_last(), class)
    }
}

/// A census lists two classes or more exactly where two labels differ.
pub proof fn lemma_census_size(classes: Seq<ClassCount>, labels: Seq<usize>)
    requires
        is_census(classes, labels),
    ensures
        classes.len() >= 2 <==> has_two_classes(labels),
        classes.len() == 0 <==> labels.len() == 0,
{
    if classes.len() >= 2 {
        let i = lemma_occurrences_present(labels, classes[0].label);
        let j = lemma_occurrences_present(labels, classes[1].label);
        assert(labels[i] != labels[j]);
    }
    if has_two_classes(labels) {
        let (i, j) = choose|i: int, j: int|
            0 <= i < labels.len() && 0 <= j < labels.len() && #[trigger] labels[i]
                != #[trigger] labels[j];
        let a = choose|a: int| 0 <= a < classes.len() && (#[trigger] classes[a]).label == labels[i];
        let b = choose|b: int| 0 <= b < classes.len() && (#[trigger] classes[b]).label == labels[j];
        assert(a != b);
    }
    if classes.len() > 0 {
        let k = lemma_occurrences_present(labels, classes[0].label);
    }
    if labels.len() > 0 {
        let a = choose|a: int| 0 <= a < classes.len() && (#[trigger] classes[a]).label == labels[0];
    }
}

/// The counts of a list of classes, added up.
pub open spec fn total_count(classes: Seq<ClassCount>) -> nat
    decreases classes.len(),
{
    if classes.len() == 0 {
        0
    } else {
        total_count(classes.drop_last()) + classes.last().count as nat
    }
}

/// The labels that name one of the listed classes, counted class by class.
spec fn listed_occurrences(classes: Seq<ClassCount>, labels: Seq<usize>) -> nat
    decreases classes.len(),
{
    if classes.len() == 0 {
        0
    } else {
        listed_occurrences(classes.drop_last(), labels) + occurrences(labels, classes.last().label)
    }
}

spec fn is_listed(classes: Seq<ClassCount>, label: usize) -> bool {
    exists|i: int| 0 <= i < classes.len() && (#[trigger] classes[i]).label == label
}

proof fn lemma_listed_occurrences_push(classes: Seq<ClassCount>, labels: Seq<usize>, label: usize)
    requires
        ascending(classes),
    ensures
        listed_occurrences(classes, labels.push(label)) == listed_occurrences(classes, labels)
            + if is_listed(classes, label) {
            1nat
        } else {
            0nat
        },
    decreases classes.len(),
{
    assert(labels.push(label).drop_last() =~= labels);
    if classes.len() > 0 {
        let front = classes.drop_last();
        let n = classes.len() - 1;
        lemma_listed_occurrences_push(front, labels, label);
        if is_listed(front, label) {
            let i = choose|i: int| 0 <= i < front.len() && (#[trigger] front[i]).label == label;
            assert(classes[i].label == label);
            assert(classes[i].label < classes[n].label);
        } else if classes[n].label != label {
            if is_listed(classes, label) {
                let i = choose|i: int|
                    0 <= i < classes.len() && (#[trigger] classes[i]).label == label;
                assert(front[i].label == label);
            }
        }
    }
}

proof fn lemma_listed_occurrences_all(classes: Seq<ClassCount>, labels: Seq<usize>)
    requires
        ascending(classes),
        forall|k: int| 0 <= k < labels.len() ==> is_listed(classes, #[trigger] labels[k]),
    ensures
        listed_occurrences(classes, labels) == labels.len(),
    decreases labels.len(),
{
    if labels.len() == 0 {
        assert(labels =~= Seq::<usize>::empty());
        lemma_listed_occurrences_none(classes);
    } else {
        let front = labels.drop_last();
        assert forall|k: int| 0 <= k < front.len() implies is_listed(
            classes,
            #[trigger] front[k],
        ) by {
            assert(front[k] == labels[k]);
        }
        lemma_listed_occurrences_all(classes, front);
        lemma_listed_occurrences_push(classes, front, labels.last());
        assert(front.push(labels.last()) =~= labels);
        assert(is_listed(classes, labels[labels.len() - 1]));
    }
}

proof fn lemma_listed_occurrences_none(classes: Seq<ClassCount>)
    ensures
        listed_occurrences(classes, Seq::<usize>::empty()) == 0,
    decreases classes.len(),
{
    if classes.len() > 0 {
        lemma_listed_occurrences_none(classes.drop_last());
    }
}

proof fn lemma_total_is_listed(classes: Seq<ClassCount>, labels: Seq<usize>)
    requires
        forall|i: int|
            0 <= i < classes.len() ==> (#[trigger] classes[i]).count == occurrences(
                labels,
                classes[i].label,
            ),
    ensures
        total_count(classes) == listed_occurrences(classes, labels),
    decreases classes.len(),
{
    if classes.len() > 0 {
        let front = classes.drop_last();
        assert forall|i: int| 0 <= i < front.len() implies (#[trigger] front[i]).count
            == occurrences(labels, front[i].label) by {
            assert(front[i] == classes[i]);
        }
        lemma_total_is_listed(front, labels);
        assert(classes[classes.len() - 1].count == occurrences(labels, classes.last().label));
    }
}

/// The counts of a census add up to the number of labels: the priors of the
/// classes add up to one.
pub proof fn lemma_census_total(classes: Seq<ClassCount>, labels: Seq<usize>)
    requires
        is_census(classes, labels),
    ensures
        total_count(classes) == labels.len(),
{
    lemma_total_is_listed(classes, labels);
    lemma_listed_occurrences_all(classes, labels);
}

/// Of a series of at least two observations, the rows that have a label pair
/// up with the labels and are of one width, so that only a want of classes can
/// keep them from training; the whole matrix has one row too many.
pub proof fn lemma_labelled_rows_pair_up(data: Seq<StockData>)
    requires
        data.len() >= 2,
    ensures
        training_defect(features_of(data), labels_of(data)) == Some(CustomError::ShapeMismatch),
        training_defect(features_of(data).drop_last(), labels_of(data)) == if has_two_classes(
            labels_of(data),
        ) {
            None
        } else {
            Some(CustomError::InsufficientClasses)
        },
{
    let rows = features_of(data).drop_last();
    assert(uniform_width(rows, rows[0].len())) by {
        assert forall|i: int| 0 <= i < rows.len() implies (#[trigger] rows[i]).len() == 2 by {
            assert(rows[i] == features_of(data)[i]);
        }
    }
}

/// Lists the classes that occur among the labels, by ascending label, each
/// with the number of its occurrences.
pub fn census(labels: &Vec<usize>) -> (classes: Vec<ClassCount>)
    ensures
        is_census(classes@, labels@),
{
    let mut classes: Vec<ClassCount> = Vec::new();
    let mut k: usize = 0;
    while k < labels.len()
        invariant
            k <= labels.len(),
            is_census(classes@, labels@.subrange(0, k as int)),
        decreases labels.len() - k,
    {
        let label: usize = labels[k];
        let ghost seen = labels@.subrange(0, k as int);
        let ghost next = labels@.subrange(0, k + 1);
        let ghost before = classes@;
        assert(next.drop_last() =~= seen);
        let mut at: usize = 0;
        while at < classes.len() && classes[at].label < label
            invariant
                at <= classes.len(),
                forall|i: int| 0 <= i < at ==> (#[trigger] classes@[i]).label < label,
            decreases classes.len() - at,
        {
            at += 1;
        }
        if at < classes.len() && classes[at].label == label {
            let count: usize = classes[at].count;
            proof {
                lemma_occurrences_bound(seen, label);
            }
            classes.set(at, ClassCount { label, count: count + 1 });
            assert forall|j: int| 0 <= j < next.len() implies exists|i: int|
                0 <= i < classes@.len() && (#[trigger] classes@[i]).label == #[trigger] next[j] by {
                if j < k {
                    let i = choose|i: int|
                        0 <= i < before.len() && (#[trigger] before[i]).label == seen[j];
                    assert(classes@[i].label == next[j]);
                } else {
                    assert(classes@[at as int].label == next[j]);
                }
            }
        } else {
            assert forall|j: int| 0 <= j < seen.len() implies seen[j] != label by {
                let i = choose|i: int|
                    0 <= i < before.len() && (#[trigger] before[i]).label == seen[j];
                if i >= at {
                    assert(before[at as int].label > label);
                }
            }
            proof {
                lemma_occurrences_absent(seen, label);
            }
            classes.insert(at, ClassCount { label, count: 1 });
            assert forall|i: int, j: int| 0 <= i < j < classes@.len() implies (
            #[trigger] classes@[i]).label < (#[trigger] classes@[j]).label by {
                if i > at {
                    assert(classes@[i] == before[i - 1]);
                    assert(classes@[j] == before[j - 1]);
                } else if i == at {
                    assert(classes@[j] == before[j - 1]);
                    assert(before[at as int].label > label);
                } else if j > at {
                    assert(classes@[j] == before[j - 1]);
                }
            }
            assert forall|i: int| 0 <= i < classes@.len() implies (#[trigger] classes@[i]).count
                > 0 && classes@[i].count == occurrences(next, classes@[i].label) by {
                if i < at {
                    assert(classes@[i] == before[i]);
                } else if i > at {
                    assert(classes@[i] == before[i - 1]);
                    assert(before[at as int].label > label);
                }
            }
            assert forall|j: int| 0 <= j < next.len() implies exists|i: int|
                0 <= i < classes@.len() && (#[trigger] classes@[i]).label == #[trigger] next[j] by {
                if j < k {
                    let i = choose|i: int|
                        0 <= i < before.len() && (#[trigger] before[i]).label == seen[j];
                    if i < at {
                        assert(classes@[i].label == next[j]);
                    } else {
                        assert(classes@[i + 1] == before[i]);
                    }
                } else {
                    assert(classes@[at as int].label == next[j]);
                }
            }
        }
        k += 1;
    }
    assert(labels@.subrange(0, k as int) =~= labels@);
    classes
}

/// Whether every row is `width` wide.
pub fn has_width(rows: &Vec<Vec<Decimal>>, width: usize) -> (r: bool)
    ensures
        r == uniform_width(rows_of(rows@), width as nat),
{
    let mut i: usize = 0;
    while i < rows.len()
        invariant
            i <= rows.len(),
            forall|j: int| 0 <= j < i ==> (#[trigger] rows_of(rows@)[j]).len() == width,
        decreases rows.len() - i,
    {
        assert(rows_of(rows@)[i as int] == rows@[i as int]@);
        if rows[i].len() != width {
            return false;
        }
        i += 1;
    }
    true
}

/// Examines a training set: feature rows and one label for each.
///
/// Fails with `ShapeMismatch` where rows and labels differ in number, else
/// with `DimensionMismatch` where the rows differ in width, else with
/// `InsufficientClasses` where fewer than two distinct labels occur. Otherwise
/// gives the width, the number of samples and the census of the classes.
pub fn summarize_training(features: &Vec<Vec<Decimal>>, labels: &Vec<usize>) -> (r: Result<
    TrainingSummary,
    CustomError,
>)
    ensures
        match r {
            Ok(summary) => {
                &&& training_defect(rows_of(features@), labels@) is None
                &&& summary.dimension == features@[0]@.len()
                &&& summary.samples == labels@.len()
                &&& is_census(summary.classes@, labels@)
                &&& total_count(summary.classes@) == summary.samples
            },
            Err(e) => training_defect(rows_of(features@), labels@) == Some(e),
        },
        (features@.len() == labels@.len() && uniform_width(
            rows_of(features@),
            features@[0]@.len(),
        ) && forall|i: int, j: int|
            0 <= i < labels@.len() && 0 <= j < labels@.len() ==> labels@[i] == labels@[j]) ==> r
            matches Err(CustomError::InsufficientClasses),
{
    if features.len() != labels.len() {
        return Err(CustomError::ShapeMismatch);
    }
    let dimension: usize = if features.len() > 0 {
        features[0].len()
    } else {
        0
    };
    if !has_width(features, dimension) {
        return Err(CustomError::DimensionMismatch);
    }
    let classes = census(labels);
    proof {
        lemma_census_size(classes@, labels@);
        lemma_census_total(classes@, labels@);
    }
    if classes.len() < 2 {
        return Err(CustomError::InsufficientClasses);
    }
    Ok(TrainingSummary { dimension, samples: labels.len(), classes })
}

/// Naming one class for every row is right as often as that class occurs
/// among the labels.
pub proof fn lemma_constant_prediction(labels: Seq<usize>, class: usize)
    ensures
        agreements(Seq::new(labels.len(), |i: int| class), labels) == occurrences(labels, class),
    decreases labels.len(),
{
    if labels.len() > 0 {
        let front = labels.drop_last();
        lemma_constant_prediction(front, class);
        assert(Seq::new(labels.len(), |i: int| class).drop_last() =~= Seq::new(
            front.len(),
            |i: int| class,
        ));
    }
}

/// `share` is the accuracy of always naming the most frequent class: out of
/// all samples, as many as the largest class has.
pub open spec fn is_baseline(share: Accuracy, classes: Seq<ClassCount>, samples: usize) -> bool {
    &&& share.total == samples
    &&& forall|i: int| 0 <= i < classes.len() ==> (#[trigger] classes[i]).count <= share.correct
    &&& exists|i: int| 0 <= i < classes.len() && (#[trigger] classes[i]).count == share.correct
}

/// The accuracy that always naming the most frequent class of the training
/// set would reach on it. `None` where no class was seen.
pub fn baseline(summary: &TrainingSummary) -> (r: Option<Accuracy>)
    ensures
        match r {
            Some(share) => is_baseline(share, summary.classes@, summary.samples),
            None => summary.classes@.len() == 0,
        },
{
    if summary.classes.len() == 0 {
        return None;
    }
    let mut most: usize = summary.classes[0].count;
    let mut i: usize = 1;
    while i < summary.classes.len()
        invariant
            1 <= i <= summary.classes@.len(),
            forall|j: int| 0 <= j < i ==> (#[trigger] summary.classes@[j]).count <= most,
            exists|j: int| 0 <= j < i && (#[trigger] summary.classes@[j]).count == most,
        decreases summary.classes.len() - i,
    {
        if summary.classes[i].count > most {
            most = summary.classes[i].count;
        }
        i += 1;
    }
    Some(Accuracy { correct: most, total: summary.samples })
}

/// Examines rows that a model trained on `summary` is to classify.
///
/// Fails with `DimensionMismatch` where a row is not as wide as the rows the
/// model was trained on.
pub fn check_rows(summary: &TrainingSummary, rows: &Vec<Vec<Decimal>>) -> (r: Result<
    (),
    CustomError,
>)
    ensures
        r == if uniform_width(rows_of(rows@), summary.dimension as nat) {
            Ok::<(), CustomError>(())
        } else {
            Err::<(), CustomError>(CustomError::DimensionMismatch)
        },
{
    if has_width(rows, summary.dimension) {
        Ok(())
    } else {
        Err(CustomError::DimensionMismatch)
    }
}

} // verus!

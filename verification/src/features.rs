//! From observations to the feature matrix and the labels.
//!
//! Every observation gives one feature row, its price and its volume. Every
//! observation but the last gives one label: 1 where the next price is
//! strictly higher, 0 otherwise. The last row therefore has no label, and
//! [`labelled_rows`] leaves it out for training.

use vstd::prelude::*;
use crate::error::CustomError;
use crate::number::{Decimal, SCALE};
use crate::parser::{Observation, StockData};

verus! {

/// The feature row of an observation: the price, then the volume as a decimal.
pub open spec fn feature_row(o: Observation) -> Seq<Decimal> {
    seq![o.price, Decimal { units: (o.volume * SCALE) as i128 }]
}

/// 1 where the price rises from `now` to `next`, 0 where it falls or stays.
pub open spec fn direction(now: Decimal, next: Decimal) -> usize {
    if now.units < next.units {
        1
    } else {
        0
    }
}

/// The rows of a matrix as sequences.
pub open spec fn rows_of(matrix: Seq<Vec<Decimal>>) -> Seq<Seq<Decimal>> {
    matrix.map_values(|row: Vec<Decimal>| row@)
}

/// The feature matrix of a series of observations, one row each.
pub open spec fn features_of(data: Seq<StockData>) -> Seq<Seq<Decimal>> {
    data.map_values(|d: StockData| feature_row(d@))
}

/// The labels of a series of observations, one for each but the last.
pub open spec fn labels_of(data: Seq<StockData>) -> Seq<usize> {
    Seq::new(
        if data.len() > 0 {
            (data.len() - 1) as nat
        } else {
            0
        },
        |i: int| direction(data[i].price, data[i + 1].price),
    )
}

/// Builds the feature matrix and the labels of a series of observations.
///
/// Fails with `InsufficientData` on fewer than two observations.
pub fn preprocess_data(data: Vec<StockData>) -> (r: Result<
    (Vec<Vec<Decimal>>, Vec<usize>),
    CustomError,
>)
    ensures
        data@.len() < 2 <==> r is Err,
        r is Err ==> r == Err::<(Vec<Vec<Decimal>>, Vec<usize>), CustomError>(
            CustomError::InsufficientData,
        ),
        r matches Ok((features, labels)) ==> {
            &&& rows_of(features@) == features_of(data@)
            &&& labels@ == labels_of(data@)
            &&& features@.len() == data@.len()
            &&& labels@.len() == data@.len() - 1
            &&& forall|i: int|
                0 <= i < labels@.len() ==> (#[trigger] labels@[i] == 1usize
                    <==> data@[i].price.units < data@[i + 1].price.units)
            &&& forall|i: int|
                0 <= i < labels@.len() ==> #[trigger] labels@[i] == 0usize || labels@[i]
                    == 1usize
        },
{
    let n: usize = data.len();
    if n < 2 {
        return Err(CustomError::InsufficientData);
    }
    let mut features: Vec<Vec<Decimal>> = Vec::new();
    let mut i: usize = 0;
    while i < n
        invariant
            n == data@.len(),
            i <= n,
            features@.len() == i,
            forall|j: int| 0 <= j < i ==> (#[trigger] features@[j])@ == feature_row(data@[j]@),
        decreases n - i,
    {
        let row: Vec<Decimal> = vec![data[i].price, Decimal::from_whole(data[i].volume)];
        assert(row@ =~= feature_row(data@[i as int]@));
        features.push(row);
        i += 1;
    }
    let mut labels: Vec<usize> = Vec::new();
    let mut k: usize = 0;
    while k < n - 1
        invariant
            n == data@.len(),
            n >= 2,
            k <= n - 1,
            labels@.len() == k,
            forall|j: int|
                0 <= j < k ==> #[trigger] labels@[j] == direction(
                    data@[j].price,
                    data@[j + 1].price,
                ),
        decreases n - 1 - k,
    {
        if data[k].price.units < data[k + 1].price.units {
            labels.push(1);
        } else {
            labels.push(0);
        }
        k += 1;
    }
    assert(rows_of(features@) =~= features_of(data@));
    assert(labels@ =~= labels_of(data@));
    Ok((features, labels))
}

/// The rows that have a label: all but the last. Training on the whole matrix
/// against the labels would pair rows and labels that differ in number.
pub fn labelled_rows(features: Vec<Vec<Decimal>>) -> (r: Vec<Vec<Decimal>>)
    ensures
        r@ == if features@.len() > 0 {
            features@.drop_last()
        } else {
            features@
        },
{
    let mut rows = features;
    let _ = rows.pop();
    rows
}

} // verus!

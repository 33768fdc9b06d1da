//! The ranges that the axes of the price and volume charts span.

use vstd::prelude::*;
use crate::number::Decimal;
use crate::parser::StockData;

verus! {

/// `low` and `high` are the least and the greatest price of a series.
pub open spec fn is_price_range(data: Seq<StockData>, low: Decimal, high: Decimal) -> bool {
    &&& forall|i: int|
        0 <= i < data.len() ==> low.units <= (#[trigger] data[i]).price.units <= high.units
    &&& exists|i: int| 0 <= i < data.len() && (#[trigger] data[i]).price == low
    &&& exists|i: int| 0 <= i < data.len() && (#[trigger] data[i]).price == high
}

/// `top` is the greatest volume of a series.
pub open spec fn is_greatest_volume(data: Seq<StockData>, top: u64) -> bool {
    &&& forall|i: int| 0 <= i < data.len() ==> (#[trigger] data[i]).volume <= top
    &&& exists|i: int| 0 <= i < data.len() && (#[trigger] data[i]).volume == top
}

/// The least and the greatest price of a series, `None` for an empty one.
pub fn price_range(data: &Vec<StockData>) -> (r: Option<(Decimal, Decimal)>)
    ensures
        match r {
            Some((low, high)) => is_price_range(data@, low, high),
            None => data@.len() == 0,
        },
{
    if data.len() == 0 {
        return None;
    }
    let mut low: Decimal = data[0].price;
    let mut high: Decimal = data[0].price;
    let ghost mut at_low: int = 0;
    let ghost mut at_high: int = 0;
    let mut i: usize = 1;
    while i < data.len()
        invariant
            1 <= i <= data.len(),
            0 <= at_low < i,
            0 <= at_high < i,
            data@[at_low].price == low,
            data@[at_high].price == high,
            forall|k: int|
                0 <= k < i ==> low.units <= (#[trigger] data@[k]).price.units <= high.units,
        decreases data.len() - i,
    {
        let price: Decimal = data[i].price;
        if price.units < low.units {
            low = price;
            proof {
                at_low = i as int;
            }
        }
        if price.units > high.units {
            high = price;
            proof {
                at_high = i as int;
            }
        }
        i += 1;
    }
    Some((low, high))
}

/// The greatest volume of a series, and 1 for an empty one.
pub fn volume_ceiling(data: &Vec<StockData>) -> (top: u64)
    ensures
        if data@.len() == 0 {
            top == 1
        } else {
            is_greatest_volume(data@, top)
        },
{
    if data.len() == 0 {
        return 1;
    }
    let mut top: u64 = data[0].volume;
    let ghost mut at_top: int = 0;
    let mut i: usize = 1;
    while i < data.len()
        invariant
            1 <= i <= data.len(),
            0 <= at_top < i,
            data@[at_top].volume == top,
            forall|k: int| 0 <= k < i ==> (#[trigger] data@[k]).volume <= top,
        decreases data.len() - i,
    {
        if data[i].volume > top {
            top = data[i].volume;
            proof {
                at_top = i as int;
            }
        }
        i += 1;
    }
    top
}

} // verus!

//! The computing part of the history request: period lookup, then grouping.

use vstd::prelude::*;
use crate::aggregator::{
    KLineWindow, aggregate_to_kline, period_to_seconds, period_seconds_of,
    unsupported_period_message, windows_view, group_runs, keyed_samples,
};
use crate::database::RawDataPoint;

verus! {

/// Candle windows for samples read from the store, for the period named
/// `period` and the metric named `indicator`; an unknown period name is
/// refused with its message and nothing is grouped.
pub fn historical_klines(raw_data: Vec<RawDataPoint>, period: &str, indicator: &str) -> (res:
    Result<Vec<KLineWindow>, String>)
    ensures
        match period_seconds_of(period@) {
            Some(s) => res matches Ok(w) && windows_view(w@) == group_runs(
                keyed_samples(raw_data@, s, indicator@),
            ),
            None => res matches Err(msg) && msg@ == unsupported_period_message(period@),
        },
{
    match period_to_seconds(period) {
        Ok(period_seconds) => Ok(aggregate_to_kline(raw_data, period_seconds, indicator)),
        Err(msg) => Err(msg),
    }
}

} // verus!

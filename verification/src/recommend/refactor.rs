//! Refactoring analysis.
use vstd::prelude::*;
use crate::recommend::types::DataQuality;

verus! {

/// How much data a refactoring analysis draws on: full with both the symbol
/// index and the change history, minimal with neither, structural with one.
pub fn determine_data_quality(has_symbol_index: bool, has_temporal: bool) -> (r: DataQuality)
    ensures
        r == if has_symbol_index && has_temporal {
            DataQuality::Full
        } else if !has_symbol_index && !has_temporal {
            DataQuality::Minimal
        } else {
            DataQuality::Structured
        },
{
    match (has_symbol_index, has_temporal) {
        (true, true) => DataQuality::Full,
        (false, false) => DataQuality::Minimal,
        _ => DataQuality::Structured,
    }
}

} // verus!

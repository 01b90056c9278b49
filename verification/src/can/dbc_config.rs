//! Settings and statistics of DBC-driven CAN logging, and the value-to-text mapping of
//! DBC value descriptions.

use vstd::prelude::*;

verus! {

/// Configuration for DBC-driven CAN logging.
#[derive(Debug, Clone, Copy, PartialEq, Eq, Structural)]
pub struct CanDbcLoggerConfig {
    /// Store raw values with conversion blocks instead of physical values (default: false).
    pub store_raw_values: bool,
    /// Include unit information in MDF channels (default: true).
    pub include_units: bool,
    /// Include min/max limits in MDF channels (default: true).
    pub include_limits: bool,
    /// Include conversion blocks, for raw value mode (default: true).
    pub include_conversions: bool,
    /// Include value descriptions as value-to-text conversions (default: true).
    pub include_value_descriptions: bool,
}

impl Default for CanDbcLoggerConfig {
    fn default() -> (r: Self)
        ensures
            r == (CanDbcLoggerConfig {
                store_raw_values: false,
                include_units: true,
                include_limits: true,
                include_conversions: true,
                include_value_descriptions: true,
            }),
    {
        Self {
            store_raw_values: false,
            include_units: true,
            include_limits: true,
            include_conversions: true,
            include_value_descriptions: true,
        }
    }
}

/// Statistics about a raw CAN capture with a DBC overlay.
#[derive(Debug, Clone, Copy, PartialEq, Eq, Structural)]
pub struct OverlayStatistics {
    /// Total number of CAN frames in the capture
    pub total_frames: usize,
    /// Number of unique CAN IDs
    pub unique_can_ids: usize,
    /// Number of DBC messages that have data in this capture
    pub dbc_messages_found: usize,
    /// Total number of messages defined in the DBC
    pub dbc_messages_total: usize,
    /// Earliest timestamp in microseconds
    pub min_timestamp_us: u64,
    /// Latest timestamp in microseconds
    pub max_timestamp_us: u64,
    /// Duration of capture in microseconds
    pub duration_us: u64,
}

/// The value-to-text mapping of DBC value descriptions: each `(value, text)` pair, in
/// order, with the text owned, and the default text for values not in the mapping.
pub fn value_descriptions_to_mapping(descriptions: &[(i64, &str)], default_text: &str) -> (r: (Vec<(i64, String)>, String))
    ensures
        r.0@.len() == descriptions@.len(),
        forall|i: int|
            0 <= i < descriptions@.len() ==> (#[trigger] r.0@[i]).0 == descriptions@[i].0 && r.0@[i].1@
                == descriptions@[i].1@,
        r.1@ == default_text@,
{
    let mut mapping: Vec<(i64, String)> = Vec::new();
    let mut i: usize = 0;
    while i < descriptions.len()
        invariant
            i <= descriptions@.len(),
            mapping@.len() == i,
            forall|k: int|
                0 <= k < i ==> (#[trigger] mapping@[k]).0 == descriptions@[k].0 && mapping@[k].1@
                    == descriptions@[k].1@,
        decreases descriptions@.len() - i,
    {
        let (v, t) = descriptions[i];
        mapping.push((v, t.to_owned()));
        i = i + 1;
    }
    (mapping, default_text.to_owned())
}

} // verus!

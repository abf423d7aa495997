//! Core of an on-chain price oracle: sources elected by a voting table push observations
//! during the aggregate part of each period, and the median of what they pushed is
//! published during the calculate part, or late in the next aggregate part.

pub mod external_value;
pub mod oracle;
pub mod period_handler;
pub mod registry;

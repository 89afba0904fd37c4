//! Choices the command line offers, as plain values.
//!
//! The host parses flags; the engine only interprets the already
//! chosen values.

use vstd::prelude::*;
use crate::sort::SortOrder;

verus! {

/// The sort column a user may ask for.
#[derive(Debug, Clone, Copy, PartialEq, Eq, Structural, Default)]
pub enum SortField {
    Symbol,
    Name,
    Price,
    Change,
    #[default]
    ChangePercent,
    Volume,
    MarketCap,
}

impl SortField {
    /// The engine's sort key for this field.
    pub fn to_sort_order(self) -> (r: SortOrder)
        ensures
            r == match self {
                SortField::Symbol => SortOrder::Symbol,
                SortField::Name => SortOrder::Name,
                SortField::Price => SortOrder::Price,
                SortField::Change => SortOrder::Change,
                SortField::ChangePercent => SortOrder::ChangePercent,
                SortField::Volume => SortOrder::Volume,
                SortField::MarketCap => SortOrder::MarketCap,
            },
    {
        match self {
            SortField::Symbol => SortOrder::Symbol,
            SortField::Name => SortOrder::Name,
            SortField::Price => SortOrder::Price,
            SortField::Change => SortOrder::Change,
            SortField::ChangePercent => SortOrder::ChangePercent,
            SortField::Volume => SortOrder::Volume,
            SortField::MarketCap => SortOrder::MarketCap,
        }
    }
}

/// Which instrument kinds a filtered table shows.
#[derive(Debug, Clone, Copy, PartialEq, Eq, Structural)]
pub enum FilterType {
    /// Only stocks.
    Stocks,
    /// Only cryptocurrencies.
    Crypto,
    /// Only exchange-traded funds.
    Etf,
    /// Only indices.
    Index,
}

/// When terminal colors are used.
#[derive(Debug, Clone, Copy, PartialEq, Eq, Structural, Default)]
pub enum ColorMode {
    /// Follow the terminal's capabilities.
    #[default]
    Auto,
    /// Always color.
    Always,
    /// Never color.
    Never,
}

/// The export format a user may ask for on the command line.
#[derive(Debug, Clone, Copy, PartialEq, Eq, Structural)]
pub enum ExportFormat {
    /// Plain text.
    Text,
    /// Comma-separated values.
    Csv,
    /// JSON.
    Json,
}

} // verus!

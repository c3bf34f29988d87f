//! Why an engine could not be built.

use vstd::prelude::*;

verus! {

/// A configuration that no engine can be built from.
#[derive(Debug, Clone, Copy, PartialEq, Eq, Structural)]
pub enum ConfigError {
    /// The target has no rows.
    NoRows,
    /// The target has no columns.
    NoColumns,
    /// The tile size is zero.
    ZeroTileSize,
    /// The squared norm of the target is above the limit.
    NormTooLarge,
    /// The compression rate has a zero denominator.
    BadRate,
    /// The number of cuts does not fit a machine word.
    BudgetTooLarge,
}

impl ConfigError {
    /// The sentence that says what is wrong.
    pub open spec fn text(self) -> Seq<char> {
        match self {
            ConfigError::NoRows => "the matrix has no rows"@,
            ConfigError::NoColumns => "the matrix has no columns"@,
            ConfigError::ZeroTileSize => "the tile size is zero"@,
            ConfigError::NormTooLarge => "the squared norm of the matrix is above the limit"@,
            ConfigError::BadRate => "the compression rate has a zero denominator"@,
            ConfigError::BudgetTooLarge => "the number of cuts does not fit a machine word"@,
        }
    }

    /// A sentence that says what is wrong.
    pub fn message(&self) -> (text: &'static str)
        ensures
            text@ == self.text(),
    {
        match self {
            ConfigError::NoRows => "the matrix has no rows",
            ConfigError::NoColumns => "the matrix has no columns",
            ConfigError::ZeroTileSize => "the tile size is zero",
            ConfigError::NormTooLarge => "the squared norm of the matrix is above the limit",
            ConfigError::BadRate => "the compression rate has a zero denominator",
            ConfigError::BudgetTooLarge => "the number of cuts does not fit a machine word",
        }
    }
}

} // verus!

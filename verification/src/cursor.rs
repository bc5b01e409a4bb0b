//! The import cursor: the running height and total difficulty of a
//! run, seeded once from the store before any writes occur.

use vstd::prelude::*;

use crate::error::ImportError;
use crate::u256::U256;

verus! {

/// Running state of an import: the highest imported block number and
/// the total difficulty through it.
#[derive(Clone, Copy, Debug, PartialEq, Eq, Structural)]
#[verifier::ext_equal]
pub struct ImportCursor {
    pub height: u64,
    pub total_difficulty: U256,
}

/// What seeding yields for a given store reading: an empty store
/// seeds height zero and difficulty zero; a store with a highest
/// block must supply that block's total difficulty, and a missing
/// record is fatal, never assumed zero.
pub open spec fn seed_outcome(
    highest: Option<u64>,
    total_difficulty: Option<U256>,
) -> Result<ImportCursor, ImportError> {
    match highest {
        None => Ok(
            ImportCursor { height: 0, total_difficulty: U256 { lo: 0, hi: 0 } },
        ),
        Some(h) => match total_difficulty {
            Some(td) => Ok(ImportCursor { height: h, total_difficulty: td }),
            None => Err(ImportError::TotalDifficultyNotFound { height: h }),
        },
    }
}

impl ImportCursor {
    /// Seeds a cursor from the store's highest block and the total
    /// difficulty looked up for it.
    pub fn seed(highest: Option<u64>, total_difficulty: Option<U256>) -> (r: Result<
        ImportCursor,
        ImportError,
    >)
        ensures
            r == seed_outcome(highest, total_difficulty),
    {
        match highest {
            None => Ok(ImportCursor { height: 0, total_difficulty: U256::zero() }),
            Some(h) => match total_difficulty {
                Some(td) => Ok(ImportCursor { height: h, total_difficulty: td }),
                None => Err(ImportError::TotalDifficultyNotFound { height: h }),
            },
        }
    }
}

} // verus!

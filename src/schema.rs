//! The closed, ordered list of recognised trait names.

use vstd::prelude::*;

verus! {

pub const TRAIT_EYE: &'static str = "01 _ Eye";

pub const TRAIT_DECORATION: &'static str = "02 _ Decoration";

pub const TRAIT_ARMS: &'static str = "03 _ Arms";

pub const TRAIT_LEGS: &'static str = "04 _ Legs";

pub const TRAIT_BODY: &'static str = "05 _ Body";

pub const TRAIT_CHIP: &'static str = "06 _ Chip";

/// Number of traits in the schema.
pub const TRAIT_COUNT: usize = 6;

/// The schema's trait names, in emission order.
pub open spec fn schema() -> Seq<Seq<char>> {
    seq![TRAIT_EYE@, TRAIT_DECORATION@, TRAIT_ARMS@, TRAIT_LEGS@, TRAIT_BODY@, TRAIT_CHIP@]
}

/// No two schema names are equal, so each trait has exactly one slot.
pub proof fn lemma_schema_distinct()
    ensures
        schema().len() == TRAIT_COUNT,
        forall|i: int, j: int|
            0 <= i < TRAIT_COUNT && 0 <= j < TRAIT_COUNT && i != j ==> schema()[i] != schema()[j],
{
    reveal_strlit("01 _ Eye");
    reveal_strlit("02 _ Decoration");
    reveal_strlit("03 _ Arms");
    reveal_strlit("04 _ Legs");
    reveal_strlit("05 _ Body");
    reveal_strlit("06 _ Chip");
    assert forall|i: int, j: int|
        0 <= i < TRAIT_COUNT && 0 <= j < TRAIT_COUNT && i != j implies schema()[i]
        != schema()[j] by {
        assert(schema()[i][1] != schema()[j][1]);
    }
}

} // verus!

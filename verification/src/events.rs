//! What a host hands to a roll session and what it gets back.

use vstd::prelude::*;
use crate::geometry::DieOrientation;
use crate::rows::spec_rows;
use crate::toss::SpawnCommand;

verus! {

/// How the dice are set up.
#[derive(Clone, Copy, Debug, PartialEq, Eq)]
pub struct DicePluginSettings {
    /// Width and height, in pixels, of the picture drawn of each field.
    pub render_size: (u32, u32),
    /// How many separate fields dice are rolled in.
    pub number_of_fields: usize,
}

impl Default for DicePluginSettings {
    fn default() -> (settings: DicePluginSettings)
        ensures
            settings == (DicePluginSettings { render_size: (0, 0), number_of_fields: 0 }),
    {
        DicePluginSettings { render_size: (0, 0), number_of_fields: 0 }
    }
}

/// Why a request to roll was turned down.
#[derive(Clone, Copy, Debug, PartialEq, Eq, Structural)]
pub enum ConfigError {
    /// The request names `found` fields where the session has `expected`.
    FieldCountMismatch { expected: usize, found: usize },
    /// The count for field `field` is below zero.
    NegativeCount { field: usize },
}

/// A request to roll: `num_dice[i]` dice in field `i`.
#[derive(Clone, Debug, PartialEq, Eq)]
pub struct DiceRollStartEvent {
    pub num_dice: Vec<usize>,
}

/// What the dice show: `values[i]` holds the faces of the dice of field
/// `i`, in the order in which the dice were spawned.
#[derive(Clone, Debug, PartialEq, Eq)]
pub struct DiceRollResult {
    pub values: Vec<Vec<usize>>,
}

impl View for DiceRollResult {
    type V = Seq<Seq<usize>>;

    open spec fn view(&self) -> Seq<Seq<usize>> {
        spec_rows(self.values@)
    }
}

impl Default for DiceRollResult {
    fn default() -> (result: DiceRollResult)
        ensures
            result.values@ == Seq::<Vec<usize>>::empty(),
    {
        DiceRollResult { values: Vec::new() }
    }
}

/// The first position of `counts` that holds a number below zero.
pub open spec fn is_first_negative(counts: Seq<isize>, i: int) -> bool {
    &&& 0 <= i < counts.len()
    &&& counts[i] < 0
    &&& forall|j: int| 0 <= j < i ==> #[trigger] counts[j] >= 0
}

impl DiceRollStartEvent {
    /// Makes a request of signed counts, none of which may be below zero.
    pub fn from_counts(counts: &Vec<isize>) -> (made: Result<DiceRollStartEvent, ConfigError>)
        ensures
            match made {
                Ok(request) => {
                    &&& request.num_dice@.len() == counts@.len()
                    &&& forall|i: int|
                        0 <= i < counts@.len() ==> #[trigger] request.num_dice@[i] == counts@[i]
                },
                Err(error) => exists|i: int|
                    is_first_negative(counts@, i) && error == (ConfigError::NegativeCount {
                        field: i as usize,
                    }),
            },
    {
        let mut num_dice: Vec<usize> = Vec::new();
        let mut i: usize = 0;
        while i < counts.len()
            invariant
                i <= counts@.len(),
                num_dice@.len() == i,
                forall|j: int| 0 <= j < i ==> #[trigger] num_dice@[j] == counts@[j],
            decreases counts@.len() - i,
        {
            let count: isize = counts[i];
            if count < 0 {
                assert(is_first_negative(counts@, i as int)) by {
                    assert forall|j: int| 0 <= j < i implies #[trigger] counts@[j] >= 0 by {
                        assert(num_dice@[j] == counts@[j]);
                    }
                }
                return Err(ConfigError::NegativeCount { field: i });
            }
            num_dice.push(count as usize);
            i += 1;
        }
        Ok(DiceRollStartEvent { num_dice })
    }
}

/// Where a die is and how it is turned, as the physics provider reports it.
#[derive(Clone, Copy, Debug, PartialEq, Eq, Structural)]
pub struct DieReading {
    pub die: u64,
    pub orientation: DieOrientation,
}

/// Two bodies that began or ceased to touch.
#[derive(Clone, Copy, Debug, PartialEq, Eq, Structural)]
pub struct Contact {
    pub first: u64,
    pub second: u64,
}

/// What a session does about a request that it accepts.
#[derive(Clone, Debug, PartialEq, Eq)]
pub struct RollPlan {
    /// The dice of the roll before, which are to be removed.
    pub despawn: Vec<u64>,
    /// The dice to make, field by field.
    pub spawn: Vec<SpawnCommand>,
}

/// The fields named by `commands`, in their order.
pub open spec fn spec_fields_of(commands: Seq<SpawnCommand>) -> Seq<usize> {
    Seq::new(commands.len(), |k: int| commands[k].field)
}

} // verus!

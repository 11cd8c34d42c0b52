//! The eligibility evaluator: an address is eligible for a quest or an
//! achievement when it has completed every task that the definition
//! requires. Eligibility is computed from the ledger each time it is asked
//! for and stored nowhere.

use vstd::prelude::*;
use crate::felt::Felt;
use crate::ledger::{all_recorded, Ledger, StoreError, TaskKey};
use crate::quest::QuestDefinition;

verus! {

/// Whether the contents record, for the address, every task of the set.
pub open spec fn completes(contents: Map<TaskKey, u64>, address: Seq<u8>, required: Set<u32>) -> bool {
    forall|task_id: u32| required.contains(task_id) ==> contents.contains_key((address, task_id))
}

/// To have every task of a sequence recorded is to have every task of its
/// set recorded: order and repetition do not matter.
pub proof fn lemma_all_recorded_is_completes(
    contents: Map<TaskKey, u64>,
    address: Seq<u8>,
    task_ids: Seq<u32>,
)
    ensures
        all_recorded(contents, address, task_ids) == completes(contents, address, task_ids.to_set()),
{
    if all_recorded(contents, address, task_ids) {
        assert forall|task_id: u32| task_ids.to_set().contains(task_id) implies contents.contains_key(
            (address, task_id),
        ) by {
            let i = choose|i: int| 0 <= i < task_ids.len() && task_ids[i] == task_id;
            assert(contents.contains_key((address, task_ids[i])));
        }
    }
    if completes(contents, address, task_ids.to_set()) {
        assert forall|i: int| 0 <= i < task_ids.len() implies contents.contains_key(
            (address, #[trigger] task_ids[i]),
        ) by {
            assert(task_ids.to_set().contains(task_ids[i]));
        }
    }
}

/// Whether the address has completed every task that the definition
/// requires. An unreachable ledger is an error, never a "no".
pub fn is_eligible(ledger: &Ledger, definition: &QuestDefinition, address: &Felt) -> (eligible:
    Result<bool, StoreError>)
    ensures
        eligible is Ok <==> ledger.available(),
        eligible matches Err(e) ==> e == StoreError::Unavailable,
        eligible matches Ok(yes) ==> yes == completes(ledger@, address@, definition.required()),
{
    proof {
        lemma_all_recorded_is_completes(ledger@, address@, definition.task_ids());
    }
    ledger.exists_all(address, definition.required_tasks())
}

} // verus!

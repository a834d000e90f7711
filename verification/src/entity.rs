//! Entity state tracking: the current workflow state of each tracked
//! entity, updated as state-transition records are replayed.

use crate::error::EntityError;
use vstd::prelude::*;

verus! {

#[derive(Debug)]
pub struct EntityState {
    pub entity_id: String,
    pub workflow_id: String,
    pub current_state: String,
    pub last_record_index: usize,
}

impl EntityState {
    pub fn new(entity_id: &str, workflow_id: &str, current_state: &str, last_record_index: usize) -> (e: EntityState)
        ensures
            e.entity_id@ == entity_id@,
            e.workflow_id@ == workflow_id@,
            e.current_state@ == current_state@,
            e.last_record_index == last_record_index,
    {
        EntityState {
            entity_id: String::from_str(entity_id),
            workflow_id: String::from_str(workflow_id),
            current_state: String::from_str(current_state),
            last_record_index,
        }
    }
}

/// The position of the first tracked entity carrying `id`.
pub open spec fn entity_index_of(entities: Seq<EntityState>, id: Seq<char>) -> Option<int> {
    if exists|i: int| 0 <= i < entities.len() && (#[trigger] entities[i]).entity_id@ == id {
        Some(
            choose|i: int|
                0 <= i < entities.len() && (#[trigger] entities[i]).entity_id@ == id && forall|
                    k: int,
                |
                    0 <= k < i ==> (#[trigger] entities[k]).entity_id@ != id,
        )
    } else {
        None
    }
}

proof fn lemma_entity_first_index(entities: Seq<EntityState>, id: Seq<char>, i: int)
    requires
        0 <= i < entities.len(),
        entities[i].entity_id@ == id,
        forall|k: int| 0 <= k < i ==> (#[trigger] entities[k]).entity_id@ != id,
    ensures
        entity_index_of(entities, id) == Some(i),
{
    let j = choose|j: int|
        0 <= j < entities.len() && (#[trigger] entities[j]).entity_id@ == id && forall|k: int|
            0 <= k < j ==> (#[trigger] entities[k]).entity_id@ != id;
    if j < i {
        assert(entities[j].entity_id@ != id);
    }
    if i < j {
        assert(entities[i].entity_id@ != id);
    }
}

pub struct Tracker {
    pub entities: Vec<EntityState>,
}

impl Tracker {
    /// Starts tracking one entity in its workflow's initial state.
    pub fn new(entity_id: &str, workflow_id: &str, initial_state: &str, record_index: usize) -> (t: Tracker)
        ensures
            t.entities@.len() == 1,
            t.entities@[0].entity_id@ == entity_id@,
            t.entities@[0].workflow_id@ == workflow_id@,
            t.entities@[0].current_state@ == initial_state@,
            t.entities@[0].last_record_index == record_index,
    {
        let mut entities: Vec<EntityState> = Vec::new();
        entities.push(EntityState::new(entity_id, workflow_id, initial_state, record_index));
        Tracker { entities }
    }

    /// Moves a tracked entity to a new state, remembering the record
    /// that caused the move; unknown entities are rejected.
    pub fn update_entity(&mut self, entity_id: &str, new_state: &str, record_index: usize) -> (r:
        Result<(), EntityError>)
        ensures
            match r {
                Ok(()) => {
                    &&& entity_index_of(old(self).entities@, entity_id@) is Some
                    &&& {
                        let i = entity_index_of(old(self).entities@, entity_id@).unwrap();
                        &&& final(self).entities@.len() == old(self).entities@.len()
                        &&& forall|k: int|
                            0 <= k < old(self).entities@.len() && k != i
                                ==> final(self).entities@[k] == old(self).entities@[k]
                        &&& final(self).entities@[i].entity_id == old(self).entities@[i].entity_id
                        &&& final(self).entities@[i].workflow_id
                            == old(self).entities@[i].workflow_id
                        &&& final(self).entities@[i].current_state@ == new_state@
                        &&& final(self).entities@[i].last_record_index == record_index
                    }
                },
                Err(e) => {
                    &&& e is Update
                    &&& entity_index_of(old(self).entities@, entity_id@) is None
                    &&& final(self).entities == old(self).entities
                },
            },
    {
        let id = String::from_str(entity_id);
        let n = self.entities.len();
        let mut i: usize = 0;
        while i < n
            invariant
                *self == *old(self),
                id@ == entity_id@,
                i <= n,
                n == self.entities@.len(),
                forall|k: int| 0 <= k < i ==> (#[trigger] self.entities@[k]).entity_id@ != id@,
            decreases n - i,
        {
            if self.entities[i].entity_id.eq(&id) {
                proof {
                    lemma_entity_first_index(self.entities@, id@, i as int);
                }
                let old_entity = self.entities.remove(i);
                let updated = EntityState {
                    entity_id: old_entity.entity_id,
                    workflow_id: old_entity.workflow_id,
                    current_state: String::from_str(new_state),
                    last_record_index: record_index,
                };
                self.entities.insert(i, updated);
                return Ok(());
            }
            i = i + 1;
        }
        proof {
            if exists|k: int|
                0 <= k < self.entities@.len() && (#[trigger] self.entities@[k]).entity_id@
                    == entity_id@ {
                let k = choose|k: int|
                    0 <= k < self.entities@.len() && (#[trigger] self.entities@[k]).entity_id@
                        == entity_id@;
                assert(false);
            }
        }
        Err(EntityError::Update(String::from_str("Entity does not exist")))
    }
}

} // verus!

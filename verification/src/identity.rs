//! How fully an entity has been provisioned across the two systems.
//!
//! A project gains a remote room id and a store id as it is created; a person
//! only ever gains a store id.  The completeness states form a small ladder
//! and entities only ever climb it: `Unprovisioned -> RoomOnly -> Complete`
//! for a project, `Unprovisioned -> StoreOnly` for a person.  The state is
//! carried as a tagged value and checked at the orchestrator's phase
//! boundaries.

use vstd::prelude::*;

verus! {

/// No store id, no room id: freshly constructed, not yet persisted anywhere.
#[derive(Debug, PartialEq, Eq)]
pub struct NoId {}

/// Has a remote room id but no store row yet (room created, insert pending).
#[derive(Debug, PartialEq, Eq)]
pub struct MatrixNoDb {
    pub matrix_id: String,
}

/// Has a store id and no room id (a person never gets a room of its own).
#[derive(Debug, PartialEq, Eq)]
pub struct DbNoMatrix {
    pub db_id: i32,
}

/// Has both a store id and a remote room id.
#[derive(Debug, PartialEq, Eq)]
pub struct FullId {
    pub db_id: i32,
    pub matrix_id: String,
}

/// The provisioning state of one entity, one variant per rung of the ladder.
#[derive(Debug, PartialEq, Eq)]
pub enum IdentityState {
    Unprovisioned(NoId),
    RoomOnly(MatrixNoDb),
    StoreOnly(DbNoMatrix),
    Complete(FullId),
}

impl IdentityState {
    /// The store id, along the dimension this state has one.
    pub open spec fn spec_db_id(self) -> Option<i32> {
        match self {
            IdentityState::Unprovisioned(_) => None,
            IdentityState::RoomOnly(_) => None,
            IdentityState::StoreOnly(d) => Some(d.db_id),
            IdentityState::Complete(f) => Some(f.db_id),
        }
    }

    /// The remote room id, along the dimension this state has one.
    pub open spec fn spec_matrix_id(self) -> Option<Seq<char>> {
        match self {
            IdentityState::Unprovisioned(_) => None,
            IdentityState::RoomOnly(m) => Some(m.matrix_id@),
            IdentityState::StoreOnly(_) => None,
            IdentityState::Complete(f) => Some(f.matrix_id@),
        }
    }

    pub fn db_id(&self) -> (r: Option<i32>)
        ensures
            r == self.spec_db_id(),
    {
        match self {
            IdentityState::Unprovisioned(_) => None,
            IdentityState::RoomOnly(_) => None,
            IdentityState::StoreOnly(d) => Some(d.db_id),
            IdentityState::Complete(f) => Some(f.db_id),
        }
    }

    pub fn matrix_id(&self) -> (r: Option<String>)
        ensures
            match r {
                Some(s) => self.spec_matrix_id() == Some(s@),
                None => self.spec_matrix_id() is None,
            },
    {
        match self {
            IdentityState::Unprovisioned(_) => None,
            IdentityState::RoomOnly(m) => Some(m.matrix_id.clone()),
            IdentityState::StoreOnly(_) => None,
            IdentityState::Complete(f) => Some(f.matrix_id.clone()),
        }
    }

    /// Duplicate of this state, field for field.
    pub fn duplicate(&self) -> (r: Self)
        ensures
            r == *self,
    {
        match self {
            IdentityState::Unprovisioned(_) => IdentityState::Unprovisioned(NoId {}),
            IdentityState::RoomOnly(m) => IdentityState::RoomOnly(
                MatrixNoDb { matrix_id: m.matrix_id.clone() },
            ),
            IdentityState::StoreOnly(d) => IdentityState::StoreOnly(DbNoMatrix { db_id: d.db_id }),
            IdentityState::Complete(f) => IdentityState::Complete(
                FullId { db_id: f.db_id, matrix_id: f.matrix_id.clone() },
            ),
        }
    }
}

} // verus!

//! The [`Person`] type used throughout.

use vstd::prelude::*;

use crate::identity::IdentityState;
use crate::user_permission::UserPermission;

verus! {

/// A person known to the system.
///
/// The `name` is the directory-derived login name and the only cross-system
/// correlation key: the room service derives a remote handle from it
/// deterministically, so no separate remote identity is stored.
#[derive(Debug, PartialEq, Eq)]
pub struct Person {
    pub person_id: IdentityState,
    pub name: String,
    pub global_permission: UserPermission,
    pub surname: Option<String>,
    pub firstname: Option<String>,
}

impl Person {
    /// A person's identity never has a room dimension.
    pub open spec fn identity_ok(self) -> bool {
        self.person_id is Unprovisioned || self.person_id is StoreOnly
    }

    /// The store id, when the person has been persisted.
    pub open spec fn spec_db_id(self) -> Option<i32> {
        self.person_id.spec_db_id()
    }

    pub fn new(
        person_id: IdentityState,
        name: String,
        global_permission: UserPermission,
        surname: Option<String>,
        firstname: Option<String>,
    ) -> (r: Self)
        requires
            person_id is Unprovisioned || person_id is StoreOnly,
        ensures
            r == (Person { person_id, name, global_permission, surname, firstname }),
            r.identity_ok(),
    {
        Person { person_id, name, global_permission, surname, firstname }
    }

    pub fn is_global_admin(&self) -> (r: bool)
        ensures
            r == (self.global_permission == UserPermission::Admin),
    {
        match self.global_permission {
            UserPermission::Admin => true,
            UserPermission::User => false,
        }
    }

    pub fn db_id(&self) -> (r: Option<i32>)
        ensures
            r == self.spec_db_id(),
    {
        self.person_id.db_id()
    }

    /// Duplicate of this person, field for field.
    pub fn duplicate(&self) -> (r: Self)
        ensures
            r == *self,
    {
        Person {
            person_id: self.person_id.duplicate(),
            name: self.name.clone(),
            global_permission: self.global_permission,
            surname: match &self.surname {
                Some(s) => Some(s.clone()),
                None => None,
            },
            firstname: match &self.firstname {
                Some(s) => Some(s.clone()),
                None => None,
            },
        }
    }
}

} // verus!

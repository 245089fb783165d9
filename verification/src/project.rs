//! The [`Project`] type used throughout.

use vstd::prelude::*;

use crate::identity::{FullId, IdentityState, MatrixNoDb};
use crate::person::Person;
use crate::user_permission::UserPermission;

verus! {

/// Two optional store ids match when both are present and equal.
pub open spec fn same_db_id(a: Option<i32>, b: Option<i32>) -> bool {
    match (a, b) {
        (Some(x), Some(y)) => x == y,
        _ => false,
    }
}

/// Exec counterpart of [`same_db_id`].
pub fn ids_match(a: Option<i32>, b: Option<i32>) -> (r: bool)
    ensures
        r == same_db_id(a, b),
{
    match (a, b) {
        (Some(x), Some(y)) => x == y,
        _ => false,
    }
}

/// A named workspace together with its member list.
///
/// The member list, once loaded from the store, is a snapshot of store state
/// at load time, never a live view.  It is keyed by person identity and holds
/// no duplicates.
#[derive(Debug, PartialEq, Eq)]
pub struct Project {
    pub project_id: IdentityState,
    pub name: String,
    pub members: Vec<(Person, UserPermission)>,
}

impl Project {
    /// Member entries carry persisted persons, one entry per person.
    pub open spec fn wf(self) -> bool {
        &&& forall|i: int|
            0 <= i < self.members@.len() ==> (#[trigger] self.members@[i]).0.person_id
                is StoreOnly
        &&& forall|i: int, j: int|
            0 <= i < j < self.members@.len() ==> !same_db_id(
                self.members@[i].0.spec_db_id(),
                self.members@[j].0.spec_db_id(),
            )
    }

    pub open spec fn spec_db_id(self) -> Option<i32> {
        self.project_id.spec_db_id()
    }

    pub open spec fn spec_matrix_id(self) -> Option<Seq<char>> {
        self.project_id.spec_matrix_id()
    }

    /// Whether some member entry carries the given store id.
    pub open spec fn spec_has_member(self, id: Option<i32>) -> bool {
        exists|i: int|
            0 <= i < self.members@.len() && same_db_id(
                (#[trigger] self.members@[i]).0.spec_db_id(),
                id,
            )
    }

    /// The permission of the member entry carrying the given store id.
    pub open spec fn spec_member_permission(self, id: Option<i32>) -> UserPermission {
        self.members@[choose|i: int|
            0 <= i < self.members@.len() && same_db_id(
                (#[trigger] self.members@[i]).0.spec_db_id(),
                id,
            )].1
    }

    pub fn new(project_id: IdentityState, name: String) -> (r: Self)
        ensures
            r.project_id == project_id,
            r.name == name,
            r.members@ =~= Seq::<(Person, UserPermission)>::empty(),
            r.wf(),
    {
        Project { project_id, name, members: Vec::new() }
    }

    pub fn db_id(&self) -> (r: Option<i32>)
        ensures
            r == self.spec_db_id(),
    {
        self.project_id.db_id()
    }

    pub fn matrix_id(&self) -> (r: Option<String>)
        ensures
            match r {
                Some(s) => self.spec_matrix_id() == Some(s@),
                None => self.spec_matrix_id() is None,
            },
    {
        self.project_id.matrix_id()
    }

    /// Append one member entry.  The person must be persisted and not yet a
    /// member, which keeps the list free of duplicates.
    pub fn add_member(&mut self, person: Person, permission: UserPermission)
        requires
            old(self).wf(),
            person.person_id is StoreOnly,
            !old(self).spec_has_member(person.spec_db_id()),
        ensures
            final(self).members@ == old(self).members@.push((person, permission)),
            final(self).project_id == old(self).project_id,
            final(self).name == old(self).name,
            final(self).wf(),
    {
        self.members.push((person, permission));
        assert(final(self).wf()) by {
            assert(forall|i: int|
                0 <= i < old(self).members@.len() ==> !same_db_id(
                    (#[trigger] old(self).members@[i]).0.spec_db_id(),
                    person.spec_db_id(),
                ));
        }
    }

    /// The per-member permission recorded for this person, if they are a
    /// member; `None` when they are not.  Ignores global permissions.
    pub fn local_permission_for_user(&self, person: &Person) -> (r: Option<UserPermission>)
        requires
            self.wf(),
        ensures
            r is Some <==> self.spec_has_member(person.spec_db_id()),
            r matches Some(p) ==> p == self.spec_member_permission(person.spec_db_id()),
    {
        let target = person.db_id();
        let mut i: usize = 0;
        while i < self.members.len()
            invariant
                self.wf(),
                0 <= i <= self.members@.len(),
                target == person.spec_db_id(),
                forall|j: int|
                    0 <= j < i ==> !same_db_id(
                        (#[trigger] self.members@[j]).0.spec_db_id(),
                        target,
                    ),
            decreases self.members@.len() - i,
        {
            let entry_id = self.members[i].0.db_id();
            if ids_match(entry_id, target) {
                let perm = self.members[i].1;
                proof {
                    lemma_member_lookup(*self, i as int, person.spec_db_id());
                }
                return Some(perm);
            }
            i += 1;
        }
        None
    }

    /// Move from `Unprovisioned` to `RoomOnly`: the remote room now exists.
    pub fn set_matrix_id(self, id: String) -> (r: Project)
        requires
            self.project_id is Unprovisioned,
        ensures
            r.project_id == IdentityState::RoomOnly(MatrixNoDb { matrix_id: id }),
            r.name == self.name,
            r.members == self.members,
    {
        Project {
            project_id: IdentityState::RoomOnly(MatrixNoDb { matrix_id: id }),
            name: self.name,
            members: self.members,
        }
    }

    /// Move from `RoomOnly` to `Complete`: the store row now exists.
    pub fn set_db_id(self, id: i32) -> (r: Project)
        requires
            self.project_id is RoomOnly,
        ensures
            r.project_id matches IdentityState::Complete(f) && f.db_id == id && Some(f.matrix_id@)
                == self.spec_matrix_id(),
            r.name == self.name,
            r.members == self.members,
    {
        let matrix_id = match self.project_id {
            IdentityState::RoomOnly(m) => m.matrix_id,
            _ => String::new(),
        };
        Project {
            project_id: IdentityState::Complete(FullId { db_id: id, matrix_id }),
            name: self.name,
            members: self.members,
        }
    }

    /// Duplicate of this project, field for field.
    pub fn duplicate(&self) -> (r: Self)
        ensures
            r.project_id == self.project_id,
            r.name == self.name,
            r.members@ == self.members@,
    {
        let mut members: Vec<(Person, UserPermission)> = Vec::new();
        let mut i: usize = 0;
        while i < self.members.len()
            invariant
                0 <= i <= self.members@.len(),
                members@ =~= self.members@.subrange(0, i as int),
            decreases self.members@.len() - i,
        {
            let entry = &self.members[i];
            members.push((entry.0.duplicate(), entry.1));
            i += 1;
        }
        assert(members@ =~= self.members@);
        Project { project_id: self.project_id.duplicate(), name: self.name.clone(), members }
    }
}

/// In a well-formed member list the entry at `i` is the one and only entry
/// for its store id, so the member lookup answers that entry's permission.
pub proof fn lemma_member_lookup(g: Project, i: int, id: Option<i32>)
    requires
        g.wf(),
        0 <= i < g.members@.len(),
        same_db_id(g.members@[i].0.spec_db_id(), id),
    ensures
        g.spec_has_member(id),
        g.spec_member_permission(id) == g.members@[i].1,
{
    assert(g.spec_has_member(id));
    let k = choose|k: int|
        0 <= k < g.members@.len() && same_db_id((#[trigger] g.members@[k]).0.spec_db_id(), id);
    if k < i {
        assert(!same_db_id(g.members@[k].0.spec_db_id(), g.members@[i].0.spec_db_id()));
        assert(false);
    } else if i < k {
        assert(!same_db_id(g.members@[i].0.spec_db_id(), g.members@[k].0.spec_db_id()));
        assert(false);
    }
}

} // verus!

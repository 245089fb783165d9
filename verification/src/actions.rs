//! The mutation orchestrator: one procedure per action that changes server
//! state.
//!
//! Every action follows the same saga: load the target entities from the
//! store, authorize the requester against the freshly loaded project, stage
//! the store write, invoke the room service, and commit the staged write
//! only when the remote call succeeds.  A remote failure leaves the store
//! exactly as it was — the store never commits a change the room service
//! rejected — though the remote side may have been reached first.
//!
//! The procedures here run against the store and room-service models and
//! carry the full contracts; a network shell replays the same decisions
//! against real adapters.

use vstd::prelude::*;

use crate::permission::spec_effective_permission;
use crate::permission::{authorized_for, ProjectAction};
use crate::person::Person;
use crate::project::{same_db_id, Project};
use crate::room::{
    rooms_updated_at, spec_present_next, spec_present_outcome, spec_absent_next, RoomDirectory,
    RoomError,
};
use crate::store::{
    member_in_entries, persons_part_unchanged, projects_updated_at, row_with_members, same_project,
    seq_has_member_id, spec_added, spec_kept, spec_with_permission, spec_without, Store, StoreFault,
};
use crate::store::lemma_filter_all_true;
use crate::store::lemma_filter_all_false;
use crate::identity::{IdentityState, NoId};
use crate::strutil::spec_decimal;
use crate::user_permission::UserPermission;

verus! {

/// The errors that can occur while adding a member to a project.
#[derive(Debug, PartialEq, Eq)]
pub enum AddMemberError {
    ProjectDoesNotExist,
    /// Name of the project the requester wanted to add to (the caller does
    /// not know how that project is called yet).
    RequesterHasNoPermission(String),
    PersonDoesNotExist,
    DB(StoreFault),
    Matrix(RoomError),
}

impl From<RoomError> for AddMemberError {
    fn from(value: RoomError) -> (r: Self)
        ensures
            r == AddMemberError::Matrix(value),
    {
        AddMemberError::Matrix(value)
    }
}

impl vstd::std_specs::convert::FromSpecImpl<RoomError> for AddMemberError {
    open spec fn obeys_from_spec() -> bool {
        true
    }

    open spec fn from_spec(v: RoomError) -> Self {
        AddMemberError::Matrix(v)
    }
}

/// Whether the requester's effective permission lets them change the
/// project's membership or name.
pub open spec fn spec_may_modify(requester: Person, project: Project) -> bool {
    spec_effective_permission(requester, project) == UserPermission::Admin
}

/// What one "ensure present" exchange with the room service answers, given
/// the directory's state.
pub open spec fn spec_invite_outcome(
    d: RoomDirectory,
    rid: Seq<char>,
    name: Seq<char>,
) -> Result<(), RoomError> {
    if !d.reachable {
        Err(RoomError::Unreachable)
    } else if !d.spec_has_room(rid) {
        Err(RoomError::RoomDoesNotExist)
    } else {
        spec_present_outcome(d.spec_room(rid).spec_member_state(name))
    }
}

/// What an exchange with the room service that cannot fail on membership
/// state answers: removing a member and renaming a room succeed whenever
/// the service is reachable and the room exists.
pub open spec fn spec_room_op_outcome(d: RoomDirectory, rid: Seq<char>) -> Result<(), RoomError> {
    if !d.reachable {
        Err(RoomError::Unreachable)
    } else if !d.spec_has_room(rid) {
        Err(RoomError::RoomDoesNotExist)
    } else {
        Ok(())
    }
}

/// Neither system moved.
pub open spec fn nothing_changed(s0: Store, s1: Store, d0: RoomDirectory, d1: RoomDirectory) -> bool {
    s1 == s0 && d1 == d0
}

/// The room at `rid` recorded the given state for `name` and nothing else
/// about the directory moved.
pub open spec fn room_member_state_set(
    d0: RoomDirectory,
    d1: RoomDirectory,
    rid: Seq<char>,
    name: Seq<char>,
    state: Option<crate::room::RoomMembership>,
) -> bool {
    let k = d0.spec_room_index(rid);
    &&& rooms_updated_at(d0.rooms@, d1.rooms@, k)
    &&& d1.rooms@[k].spec_member_state(name) == state
    &&& forall|n: Seq<char>|
        n != name ==> #[trigger] d1.rooms@[k].spec_member_state(n) == d0.rooms@[k].spec_member_state(
            n,
        )
    &&& d1.rooms@[k].room_id == d0.rooms@[k].room_id
    &&& d1.rooms@[k].display_name == d0.rooms@[k].display_name
    &&& d1.reachable == d0.reachable
    &&& d1.next_serial == d0.next_serial
}

/// Add a new member to a project and keep both systems in step.
///
/// The requester needs an effective permission of `Admin` for the project.
/// The person is added with the default `User` permission; a person who is
/// already a member leaves the membership as it stands.  The store commits
/// only once the room service has accepted the invitation.
#[verifier::rlimit(50)]
pub fn add_member_to_project(
    store: &mut Store,
    rooms: &mut RoomDirectory,
    requester: &Person,
    new_member_name: &str,
    project_id: i32,
) -> (r: Result<(Person, Project), AddMemberError>)
    requires
        old(store).wf(),
        old(rooms).wf(),
    ensures
        final(store).wf(),
        final(rooms).wf(),
        r is Err ==> *final(store) == *old(store),
        !old(store).reachable ==> (r matches Err(e) && e == AddMemberError::DB(
            StoreFault::Unreachable,
        )) && nothing_changed(*old(store), *final(store), *old(rooms), *final(rooms)),
        old(store).reachable && !old(store).spec_has_project(project_id) ==> (r matches Err(e)
            && e is ProjectDoesNotExist) && nothing_changed(
            *old(store),
            *final(store),
            *old(rooms),
            *final(rooms),
        ),
        old(store).reachable && old(store).spec_has_project(project_id) && !spec_may_modify(
            *requester,
            old(store).spec_project(project_id),
        ) ==> (r matches Err(e) && e matches AddMemberError::RequesterHasNoPermission(n) && n@
            == old(store).spec_project(project_id).name@) && nothing_changed(
            *old(store),
            *final(store),
            *old(rooms),
            *final(rooms),
        ),
        old(store).reachable && old(store).spec_has_project(project_id) && spec_may_modify(
            *requester,
            old(store).spec_project(project_id),
        ) && !old(store).spec_has_person_named(new_member_name@) ==> (r matches Err(e)
            && e is PersonDoesNotExist) && nothing_changed(
            *old(store),
            *final(store),
            *old(rooms),
            *final(rooms),
        ),
        old(store).reachable && old(store).spec_has_project(project_id) && spec_may_modify(
            *requester,
            old(store).spec_project(project_id),
        ) && old(store).spec_has_person_named(new_member_name@) ==> {
            let person = old(store).spec_person_named(new_member_name@);
            let p0 = old(store).spec_project(project_id);
            let j = old(store).spec_project_index(project_id);
            let rid = p0.spec_matrix_id()->0;
            let m0 = old(rooms).spec_room(rid).spec_member_state(person.name@);
            match r {
                Ok((mem, proj)) => {
                    &&& spec_invite_outcome(*old(rooms), rid, person.name@) is Ok
                    &&& mem == person
                    &&& persons_part_unchanged(*old(store), *final(store))
                    &&& projects_updated_at(old(store).projects@, final(store).projects@, j)
                    &&& row_with_members(
                        p0,
                        final(store).projects@[j],
                        if p0.spec_has_member(person.spec_db_id()) {
                            p0.members@
                        } else {
                            p0.members@.push((person, UserPermission::User))
                        },
                    )
                    &&& same_project(proj, final(store).projects@[j])
                    &&& room_member_state_set(
                        *old(rooms),
                        *final(rooms),
                        rid,
                        person.name@,
                        spec_present_next(m0),
                    )
                },
                Err(e) => {
                    &&& e matches AddMemberError::Matrix(f) && Err::<(), RoomError>(f)
                        == spec_invite_outcome(*old(rooms), rid, person.name@)
                    &&& nothing_changed(*old(store), *final(store), *old(rooms), *final(rooms))
                },
            }
        },
{
    // Load: the permission to act depends on the project, so it comes first.
    let loaded = match store.get_project(project_id) {
        Err(f) => {
            return Err(AddMemberError::DB(f));
        },
        Ok(None) => {
            return Err(AddMemberError::ProjectDoesNotExist);
        },
        Ok(Some(p)) => p,
    };
    let ghost p0 = old(store).spec_project(project_id);
    proof {
        assert(loaded.wf()) by {
            assert(p0.wf());
        }
    }

    // Authorize against the freshly loaded project, never a cached copy.
    if !authorized_for(ProjectAction::AddMember, requester, &loaded) {
        return Err(AddMemberError::RequesterHasNoPermission(loaded.name));
    }
    proof {
        assert(spec_may_modify(*requester, p0));
    }

    // The new member must be a known person.
    let member = match store.get_person(new_member_name) {
        Err(f) => {
            return Err(AddMemberError::DB(f));
        },
        Ok(None) => {
            return Err(AddMemberError::PersonDoesNotExist);
        },
        Ok(Some(x)) => x,
    };
    proof {
        let k = old(store).spec_person_named_index(new_member_name@);
        assert(old(store).persons@[k].person_id is StoreOnly);
    }

    // Stage: the desired membership differs from the stored one by exactly
    // the new person, or not at all when they are already a member.
    let mut desired = loaded;
    let already = member_in_entries(&desired.members, member.db_id());
    if !already {
        desired.add_member(member.duplicate(), UserPermission::User);
    }

    let rid: String = match desired.matrix_id() {
        Some(x) => x,
        None => {
            proof {
                assert(false);
            }
            return Err(AddMemberError::ProjectDoesNotExist);
        },
    };

    // Reconcile: invite the person into the remote room.  On failure the
    // staged change is discarded: the store has not moved.
    match rooms.ensure_member_present(rid.as_str(), &member.name) {
        Err(e) => {
            return Err(AddMemberError::from(e));
        },
        Ok(()) => {},
    }

    // Commit the staged membership.
    let ghost kept_pred = |e: (Person, UserPermission)|
        seq_has_member_id(desired.members@, e.0.spec_db_id());
    let ghost added_pred = |e: (Person, UserPermission)|
        !seq_has_member_id(p0.members@, e.0.spec_db_id());
    proof {
        assert forall|i: int| 0 <= i < p0.members@.len() implies kept_pred(
            #[trigger] p0.members@[i],
        ) by {
            assert(desired.members@[i] == p0.members@[i]);
        }
        lemma_filter_all_true(p0.members@, kept_pred);
        assert(spec_kept(p0.members@, desired.members@) == p0.members@);
        if already {
            assert forall|i: int| 0 <= i < desired.members@.len() implies !added_pred(
                #[trigger] desired.members@[i],
            ) by {
                assert(p0.members@[i] == desired.members@[i]);
            }
            lemma_filter_all_false(desired.members@, added_pred);
            assert(spec_added(desired.members@, p0.members@) == Seq::<(
                Person,
                UserPermission,
            )>::empty());
            assert(spec_kept(p0.members@, desired.members@) + spec_added(
                desired.members@,
                p0.members@,
            ) =~= p0.members@);
        } else {
            let e = (desired.members@.last());
            assert(desired.members@ == p0.members@.push(e));
            assert forall|i: int| 0 <= i < p0.members@.len() implies !added_pred(
                #[trigger] p0.members@[i],
            ) by {}
            lemma_filter_all_false(p0.members@, added_pred);
            p0.members@.lemma_filter_push(e, added_pred);
            assert(added_pred(e));
            assert(spec_added(desired.members@, p0.members@) =~= seq![e]);
            assert(spec_kept(p0.members@, desired.members@) + spec_added(
                desired.members@,
                p0.members@,
            ) =~= p0.members@.push(e));
        }
    }
    match store.update_project_members(&desired) {
        Err(_) => {
            proof {
                assert(false);
            }
            return Err(AddMemberError::ProjectDoesNotExist);
        },
        Ok(()) => {},
    }
    proof {
        let j = old(store).spec_project_index(project_id);
        assert(same_project(desired, store.projects@[j]));
    }
    Ok((member, desired))
}

/// The errors that can occur while removing a member from a project.
#[derive(Debug, PartialEq, Eq)]
pub enum RemoveMemberError {
    ProjectDoesNotExist,
    /// Name of the project the requester wanted to remove from (the caller
    /// does not know how that project is called yet).
    RequesterHasNoPermission(String),
    PersonDoesNotExist,
    DB(StoreFault),
    Matrix(RoomError),
}

impl From<RoomError> for RemoveMemberError {
    fn from(value: RoomError) -> (r: Self)
        ensures
            r == RemoveMemberError::Matrix(value),
    {
        RemoveMemberError::Matrix(value)
    }
}

impl vstd::std_specs::convert::FromSpecImpl<RoomError> for RemoveMemberError {
    open spec fn obeys_from_spec() -> bool {
        true
    }

    open spec fn from_spec(v: RoomError) -> Self {
        RemoveMemberError::Matrix(v)
    }
}

/// Remove a member from a project and keep both systems in step.
///
/// The requester needs an effective permission of `Admin` for the project.
/// A person who is not in the remote room any more — kicked out of band,
/// say — is treated as already absent there, and the store rows still go.
/// The store commits only once the room service has accepted the removal.
pub fn remove_member_from_project(
    store: &mut Store,
    rooms: &mut RoomDirectory,
    requester: &Person,
    remove_member_name: &str,
    project_id: i32,
) -> (r: Result<(Person, Project), RemoveMemberError>)
    requires
        old(store).wf(),
        old(rooms).wf(),
    ensures
        final(store).wf(),
        final(rooms).wf(),
        r is Err ==> *final(store) == *old(store),
        !old(store).reachable ==> (r matches Err(e) && e == RemoveMemberError::DB(
            StoreFault::Unreachable,
        )) && nothing_changed(*old(store), *final(store), *old(rooms), *final(rooms)),
        old(store).reachable && !old(store).spec_has_project(project_id) ==> (r matches Err(e)
            && e is ProjectDoesNotExist) && nothing_changed(
            *old(store),
            *final(store),
            *old(rooms),
            *final(rooms),
        ),
        old(store).reachable && old(store).spec_has_project(project_id) && !spec_may_modify(
            *requester,
            old(store).spec_project(project_id),
        ) ==> (r matches Err(e) && e matches RemoveMemberError::RequesterHasNoPermission(n) && n@
            == old(store).spec_project(project_id).name@) && nothing_changed(
            *old(store),
            *final(store),
            *old(rooms),
            *final(rooms),
        ),
        old(store).reachable && old(store).spec_has_project(project_id) && spec_may_modify(
            *requester,
            old(store).spec_project(project_id),
        ) && !old(store).spec_has_person_named(remove_member_name@) ==> (r matches Err(e)
            && e is PersonDoesNotExist) && nothing_changed(
            *old(store),
            *final(store),
            *old(rooms),
            *final(rooms),
        ),
        old(store).reachable && old(store).spec_has_project(project_id) && spec_may_modify(
            *requester,
            old(store).spec_project(project_id),
        ) && old(store).spec_has_person_named(remove_member_name@) ==> {
            let person = old(store).spec_person_named(remove_member_name@);
            let p0 = old(store).spec_project(project_id);
            let j = old(store).spec_project_index(project_id);
            let rid = p0.spec_matrix_id()->0;
            let m0 = old(rooms).spec_room(rid).spec_member_state(person.name@);
            match r {
                Ok((mem, proj)) => {
                    &&& spec_room_op_outcome(*old(rooms), rid) is Ok
                    &&& mem == person
                    &&& persons_part_unchanged(*old(store), *final(store))
                    &&& projects_updated_at(old(store).projects@, final(store).projects@, j)
                    &&& row_with_members(
                        p0,
                        final(store).projects@[j],
                        spec_without(p0.members@, seq![person]),
                    )
                    &&& same_project(proj, final(store).projects@[j])
                    &&& room_member_state_set(
                        *old(rooms),
                        *final(rooms),
                        rid,
                        person.name@,
                        spec_absent_next(m0),
                    )
                },
                Err(e) => {
                    &&& e matches RemoveMemberError::Matrix(f) && Err::<(), RoomError>(f)
                        == spec_room_op_outcome(*old(rooms), rid)
                    &&& nothing_changed(*old(store), *final(store), *old(rooms), *final(rooms))
                },
            }
        },
{
    // Load: the permission to act depends on the project, so it comes first.
    let loaded = match store.get_project(project_id) {
        Err(f) => {
            return Err(RemoveMemberError::DB(f));
        },
        Ok(None) => {
            return Err(RemoveMemberError::ProjectDoesNotExist);
        },
        Ok(Some(p)) => p,
    };
    let ghost p0 = old(store).spec_project(project_id);
    proof {
        assert(loaded.wf()) by {
            assert(p0.wf());
        }
    }

    // Authorize against the freshly loaded project, never a cached copy.
    if !authorized_for(ProjectAction::RemoveMember, requester, &loaded) {
        return Err(RemoveMemberError::RequesterHasNoPermission(loaded.name));
    }

    // The member to remove must be a known person.
    let member = match store.get_person(remove_member_name) {
        Err(f) => {
            return Err(RemoveMemberError::DB(f));
        },
        Ok(None) => {
            return Err(RemoveMemberError::PersonDoesNotExist);
        },
        Ok(Some(x)) => x,
    };

    let rid: String = match loaded.matrix_id() {
        Some(x) => x,
        None => {
            proof {
                assert(false);
            }
            return Err(RemoveMemberError::ProjectDoesNotExist);
        },
    };

    // Reconcile: kick the person from the remote room; already absent is
    // success.  On failure the staged deletion is discarded.
    match rooms.ensure_member_absent(rid.as_str(), &member.name) {
        Err(e) => {
            return Err(RemoveMemberError::from(e));
        },
        Ok(()) => {},
    }

    // Commit the staged deletion.
    let mut to_remove: Vec<Person> = Vec::new();
    to_remove.push(member.duplicate());
    match store.remove_members(project_id, &to_remove) {
        Err(_) => {
            proof {
                assert(false);
            }
            return Err(RemoveMemberError::ProjectDoesNotExist);
        },
        Ok(_) => {},
    }

    // Answer the updated pair, as the store now has it.
    proof {
        assert(to_remove@ =~= seq![member]);
    }
    let updated = match store.get_project(project_id) {
        Ok(Some(p)) => p,
        _ => {
            proof {
                let j = old(store).spec_project_index(project_id);
                crate::store::lemma_project_lookup(*store, j, project_id);
            }
            return Err(RemoveMemberError::ProjectDoesNotExist);
        },
    };
    proof {
        let j = old(store).spec_project_index(project_id);
        crate::store::lemma_project_lookup(*store, j, project_id);
    }
    Ok((member, updated))
}

/// The errors that can occur while changing a member's permission.
#[derive(Debug, PartialEq, Eq)]
pub enum SetPermissionError {
    ProjectDoesNotExist,
    /// Name of the project the requester wanted to change (the caller does
    /// not know how that project is called yet).
    RequesterHasNoPermission(String),
    PersonDoesNotExist,
    DB(StoreFault),
}

/// Change the stored per-member permission of one person in one project.
///
/// The requester needs an effective permission of `Admin` for the project.
/// A permission level has no room-visible effect, so no remote call is
/// made: the store row is updated directly.  Updating a person who is not
/// a member matches no row and succeeds without a change.
pub fn set_member_permission(
    store: &mut Store,
    requester: &Person,
    change_member_name: &str,
    project_id: i32,
    new_permission: UserPermission,
) -> (r: Result<(Person, Project), SetPermissionError>)
    requires
        old(store).wf(),
    ensures
        final(store).wf(),
        r is Err ==> *final(store) == *old(store),
        !old(store).reachable ==> (r matches Err(e) && e == SetPermissionError::DB(
            StoreFault::Unreachable,
        )),
        old(store).reachable && !old(store).spec_has_project(project_id) ==> (r matches Err(e)
            && e is ProjectDoesNotExist),
        old(store).reachable && old(store).spec_has_project(project_id) && !spec_may_modify(
            *requester,
            old(store).spec_project(project_id),
        ) ==> (r matches Err(e) && e matches SetPermissionError::RequesterHasNoPermission(n) && n@
            == old(store).spec_project(project_id).name@),
        old(store).reachable && old(store).spec_has_project(project_id) && spec_may_modify(
            *requester,
            old(store).spec_project(project_id),
        ) && !old(store).spec_has_person_named(change_member_name@) ==> (r matches Err(e)
            && e is PersonDoesNotExist),
        old(store).reachable && old(store).spec_has_project(project_id) && spec_may_modify(
            *requester,
            old(store).spec_project(project_id),
        ) && old(store).spec_has_person_named(change_member_name@) ==> {
            let person = old(store).spec_person_named(change_member_name@);
            let p0 = old(store).spec_project(project_id);
            let j = old(store).spec_project_index(project_id);
            match r {
                Ok((mem, proj)) => {
                    &&& mem == person
                    &&& persons_part_unchanged(*old(store), *final(store))
                    &&& projects_updated_at(old(store).projects@, final(store).projects@, j)
                    &&& row_with_members(
                        p0,
                        final(store).projects@[j],
                        spec_with_permission(
                            p0.members@,
                            person.spec_db_id()->0,
                            new_permission,
                        ),
                    )
                    &&& same_project(proj, final(store).projects@[j])
                },
                Err(_) => false,
            }
        },
{
    // Load: the permission to act depends on the project, so it comes first.
    let loaded = match store.get_project(project_id) {
        Err(f) => {
            return Err(SetPermissionError::DB(f));
        },
        Ok(None) => {
            return Err(SetPermissionError::ProjectDoesNotExist);
        },
        Ok(Some(p)) => p,
    };
    let ghost p0 = old(store).spec_project(project_id);
    proof {
        assert(loaded.wf()) by {
            assert(p0.wf());
        }
    }

    // Authorize against the freshly loaded project, never a cached copy.
    if !authorized_for(ProjectAction::SetMemberPermission, requester, &loaded) {
        return Err(SetPermissionError::RequesterHasNoPermission(loaded.name));
    }

    // The member to change must be a known person.
    let member = match store.get_person(change_member_name) {
        Err(f) => {
            return Err(SetPermissionError::DB(f));
        },
        Ok(None) => {
            return Err(SetPermissionError::PersonDoesNotExist);
        },
        Ok(Some(x)) => x,
    };
    proof {
        let k = old(store).spec_person_named_index(change_member_name@);
        assert(old(store).persons@[k].person_id is StoreOnly);
    }
    let member_id = match member.db_id() {
        Some(x) => x,
        None => {
            proof {
                assert(false);
            }
            return Err(SetPermissionError::PersonDoesNotExist);
        },
    };

    // A permission flag has no room-visible effect: update the row directly.
    match store.update_member_permission(project_id, member_id, new_permission) {
        Err(f) => {
            return Err(SetPermissionError::DB(f));
        },
        Ok(()) => {},
    }

    // Answer the updated pair, as the store now has it.
    let updated = match store.get_project(project_id) {
        Ok(Some(p)) => p,
        _ => {
            proof {
                let j = old(store).spec_project_index(project_id);
                crate::store::lemma_project_lookup(*store, j, project_id);
            }
            return Err(SetPermissionError::ProjectDoesNotExist);
        },
    };
    proof {
        let j = old(store).spec_project_index(project_id);
        crate::store::lemma_project_lookup(*store, j, project_id);
    }
    Ok((member, updated))
}

/// The errors that can occur while trying to create a project.
#[derive(Debug, PartialEq, Eq)]
pub enum CreateProjectError {
    RequesterHasNoPermission,
    DB(StoreFault),
    Matrix(RoomError),
}

/// Create a project in both systems.
///
/// Only a global administrator may create projects: project-local standing
/// is meaningless before the project exists, and the check comes before
/// any store or remote call is attempted.  Room creation has no prepare
/// step in the remote service, so the order minimizes — without
/// eliminating — the chance of an orphaned room: confirm the store is
/// reachable, create the room, then insert the project row keyed off the
/// returned room reference.
pub fn create_project(
    store: &mut Store,
    rooms: &mut RoomDirectory,
    requester: &Person,
    new_project_name: String,
) -> (r: Result<Project, CreateProjectError>)
    requires
        old(store).wf(),
        old(rooms).wf(),
        old(store).next_project_id < i32::MAX,
        old(rooms).next_serial < u32::MAX,
    ensures
        final(store).wf(),
        final(rooms).wf(),
        requester.global_permission != UserPermission::Admin ==> (r matches Err(e)
            && e is RequesterHasNoPermission) && nothing_changed(
            *old(store),
            *final(store),
            *old(rooms),
            *final(rooms),
        ),
        requester.global_permission == UserPermission::Admin && !old(store).reachable ==> (
        r matches Err(e) && e == CreateProjectError::DB(StoreFault::Unreachable))
            && nothing_changed(*old(store), *final(store), *old(rooms), *final(rooms)),
        requester.global_permission == UserPermission::Admin && old(store).reachable && !old(
            rooms,
        ).reachable ==> (r matches Err(e) && e == CreateProjectError::Matrix(RoomError::Unreachable))
            && nothing_changed(*old(store), *final(store), *old(rooms), *final(rooms)),
        requester.global_permission == UserPermission::Admin && old(store).reachable && old(
            rooms,
        ).reachable ==> match r {
            Ok(p) => {
                let room = final(rooms).rooms@.last();
                &&& p.project_id matches IdentityState::Complete(f) && f.db_id == old(
                    store,
                ).next_project_id && f.matrix_id@ == spec_decimal(old(rooms).next_serial as int)
                &&& p.name == new_project_name
                &&& p.members@.len() == 0
                &&& final(store).projects@.len() == old(store).projects@.len() + 1
                &&& final(store).projects@.subrange(0, old(store).projects@.len() as int) == old(
                    store,
                ).projects@
                &&& same_project(final(store).projects@.last(), p)
                &&& final(store).next_project_id == old(store).next_project_id + 1
                &&& final(store).persons@ == old(store).persons@
                &&& final(store).next_person_id == old(store).next_person_id
                &&& final(store).reachable
                &&& final(rooms).rooms@.len() == old(rooms).rooms@.len() + 1
                &&& final(rooms).rooms@.subrange(0, old(rooms).rooms@.len() as int) == old(
                    rooms,
                ).rooms@
                &&& room.room_id@ == spec_decimal(old(rooms).next_serial as int)
                &&& room.display_name == new_project_name
                &&& room.members@.len() == 0
                &&& final(rooms).next_serial == old(rooms).next_serial + 1
                &&& final(rooms).reachable
            },
            Err(_) => false,
        },
{
    // Authorize before anything is touched: only a global administrator
    // may create projects.
    if !requester.is_global_admin() {
        return Err(CreateProjectError::RequesterHasNoPermission);
    }

    // Confirm the store is reachable before creating the room, so a room
    // is not created for a project row that could never be inserted.
    match store.try_acquire_connection() {
        Err(f) => {
            return Err(CreateProjectError::DB(f));
        },
        Ok(()) => {},
    }

    // Create the room first: it has no prepare step and is the less
    // reversible of the two writes.
    let project = Project::new(IdentityState::Unprovisioned(NoId {}), new_project_name);
    let midd = match rooms.create_room(project) {
        Err(e) => {
            return Err(CreateProjectError::Matrix(e));
        },
        Ok(p) => p,
    };

    // Insert the project row keyed off the returned room reference.
    let idd = match store.add_project(midd) {
        Err(_) => {
            proof {
                assert(false);
            }
            return Err(CreateProjectError::RequesterHasNoPermission);
        },
        Ok(p) => p,
    };
    Ok(idd)
}

/// The errors that can occur while renaming a project.
#[derive(Debug, PartialEq, Eq)]
pub enum RenameProjectError {
    /// Name of the project the requester wanted to rename.
    RequesterHasNoPermission(String),
    ProjectDoesNotExist,
    DB(StoreFault),
    Matrix(RoomError),
}

impl From<StoreFault> for RenameProjectError {
    fn from(value: StoreFault) -> (r: Self)
        ensures
            r == RenameProjectError::DB(value),
    {
        RenameProjectError::DB(value)
    }
}

impl vstd::std_specs::convert::FromSpecImpl<StoreFault> for RenameProjectError {
    open spec fn obeys_from_spec() -> bool {
        true
    }

    open spec fn from_spec(v: StoreFault) -> Self {
        RenameProjectError::DB(v)
    }
}

impl From<RoomError> for RenameProjectError {
    fn from(value: RoomError) -> (r: Self)
        ensures
            r == RenameProjectError::Matrix(value),
    {
        RenameProjectError::Matrix(value)
    }
}

impl vstd::std_specs::convert::FromSpecImpl<RoomError> for RenameProjectError {
    open spec fn obeys_from_spec() -> bool {
        true
    }

    open spec fn from_spec(v: RoomError) -> Self {
        RenameProjectError::Matrix(v)
    }
}

/// Change a project's name in the store as well as in its remote room.
///
/// The requester needs an effective permission of `Admin` for the project.
/// The store commits only once the room service has accepted the new
/// display name, so afterwards a reload answers the new name and the room
/// shows it too.
pub fn rename_project(
    store: &mut Store,
    rooms: &mut RoomDirectory,
    requester: &Person,
    project_id: i32,
    new_project_name: String,
) -> (r: Result<Project, RenameProjectError>)
    requires
        old(store).wf(),
        old(rooms).wf(),
    ensures
        final(store).wf(),
        final(rooms).wf(),
        r is Err ==> *final(store) == *old(store),
        !old(store).reachable ==> (r matches Err(e) && e == RenameProjectError::DB(
            StoreFault::Unreachable,
        )) && nothing_changed(*old(store), *final(store), *old(rooms), *final(rooms)),
        old(store).reachable && !old(store).spec_has_project(project_id) ==> (r matches Err(e)
            && e is ProjectDoesNotExist) && nothing_changed(
            *old(store),
            *final(store),
            *old(rooms),
            *final(rooms),
        ),
        old(store).reachable && old(store).spec_has_project(project_id) && !spec_may_modify(
            *requester,
            old(store).spec_project(project_id),
        ) ==> (r matches Err(e) && e matches RenameProjectError::RequesterHasNoPermission(n) && n@
            == old(store).spec_project(project_id).name@) && nothing_changed(
            *old(store),
            *final(store),
            *old(rooms),
            *final(rooms),
        ),
        old(store).reachable && old(store).spec_has_project(project_id) && spec_may_modify(
            *requester,
            old(store).spec_project(project_id),
        ) ==> {
            let p0 = old(store).spec_project(project_id);
            let j = old(store).spec_project_index(project_id);
            let rid = p0.spec_matrix_id()->0;
            match r {
                Ok(proj) => {
                    let k = old(rooms).spec_room_index(rid);
                    &&& spec_room_op_outcome(*old(rooms), rid) is Ok
                    &&& persons_part_unchanged(*old(store), *final(store))
                    &&& projects_updated_at(old(store).projects@, final(store).projects@, j)
                    &&& final(store).projects@[j].project_id == p0.project_id
                    &&& final(store).projects@[j].name == new_project_name
                    &&& final(store).projects@[j].members@ == p0.members@
                    &&& same_project(proj, final(store).projects@[j])
                    &&& rooms_updated_at(old(rooms).rooms@, final(rooms).rooms@, k)
                    &&& final(rooms).rooms@[k].room_id == old(rooms).rooms@[k].room_id
                    &&& final(rooms).rooms@[k].display_name == new_project_name
                    &&& final(rooms).rooms@[k].members@ == old(rooms).rooms@[k].members@
                    &&& final(rooms).reachable == old(rooms).reachable
                    &&& final(rooms).next_serial == old(rooms).next_serial
                },
                Err(e) => {
                    &&& e matches RenameProjectError::Matrix(f) && Err::<(), RoomError>(f)
                        == spec_room_op_outcome(*old(rooms), rid)
                    &&& nothing_changed(*old(store), *final(store), *old(rooms), *final(rooms))
                },
            }
        },
{
    // Load: the permission to act depends on the project, so it comes first.
    let loaded = match store.get_project(project_id) {
        Err(f) => {
            return Err(RenameProjectError::from(f));
        },
        Ok(None) => {
            return Err(RenameProjectError::ProjectDoesNotExist);
        },
        Ok(Some(p)) => p,
    };
    let ghost p0 = old(store).spec_project(project_id);
    proof {
        assert(loaded.wf()) by {
            assert(p0.wf());
        }
    }

    // Authorize against the freshly loaded project, never a cached copy.
    if !authorized_for(ProjectAction::RenameProject, requester, &loaded) {
        return Err(RenameProjectError::RequesterHasNoPermission(loaded.name));
    }

    let rid: String = match loaded.matrix_id() {
        Some(x) => x,
        None => {
            proof {
                assert(false);
            }
            return Err(RenameProjectError::ProjectDoesNotExist);
        },
    };

    // Reconcile: rename the remote room.  On failure the staged rename is
    // discarded: the store has not moved.
    match rooms.rename_room(rid.as_str(), new_project_name.clone()) {
        Err(e) => {
            return Err(RenameProjectError::from(e));
        },
        Ok(()) => {},
    }

    // Commit the staged rename.
    match store.rename_project_in_tx(project_id, new_project_name) {
        Err(_) => {
            proof {
                assert(false);
            }
            return Err(RenameProjectError::ProjectDoesNotExist);
        },
        Ok(()) => {},
    }

    // Answer the updated project, as the store now has it.
    let updated = match store.get_project(project_id) {
        Ok(Some(p)) => p,
        _ => {
            proof {
                let j = old(store).spec_project_index(project_id);
                crate::store::lemma_project_lookup(*store, j, project_id);
            }
            return Err(RenameProjectError::ProjectDoesNotExist);
        },
    };
    proof {
        let j = old(store).spec_project_index(project_id);
        crate::store::lemma_project_lookup(*store, j, project_id);
    }
    Ok(updated)
}

/// Round trip of a rename: a store in the state `rename_project` leaves
/// behind answers the new name when the project is loaded again.  Together
/// with the rename contract's clause on the room's display name, both the
/// store-backed view and the remote room show the new name.
pub proof fn lemma_rename_round_trip(s0: Store, s1: Store, project_id: i32, new_name: Seq<char>)
    requires
        s0.wf(),
        s1.wf(),
        s0.spec_has_project(project_id),
        projects_updated_at(s0.projects@, s1.projects@, s0.spec_project_index(project_id)),
        s1.projects@[s0.spec_project_index(project_id)].project_id == s0.spec_project(
            project_id,
        ).project_id,
        s1.projects@[s0.spec_project_index(project_id)].name@ == new_name,
    ensures
        s1.spec_has_project(project_id),
        s1.spec_project(project_id).name@ == new_name,
{
    let j = s0.spec_project_index(project_id);
    crate::store::lemma_project_lookup(s1, j, project_id);
}

} // verus!

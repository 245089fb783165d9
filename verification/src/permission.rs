//! The permission resolver.
//!
//! A pure function computes a requester's effective permission for a given
//! project from global and project-local membership data.  It is re-evaluated
//! on every call and never cached, since membership can change between calls.

use vstd::prelude::*;

use crate::person::Person;
use crate::project::{same_db_id, Project};
use crate::project::lemma_member_lookup;
use crate::user_permission::UserPermission;

verus! {

/// The mutating actions the orchestrator can perform.
#[derive(Debug, Clone, Copy, PartialEq, Eq, Structural)]
pub enum ProjectAction {
    CreateProject,
    RenameProject,
    AddMember,
    RemoveMember,
    SetMemberPermission,
}

/// The permission actually granted to a requester for a specific project.
///
/// A global administrator holds `Admin` unconditionally.  Otherwise a member
/// holds the stored per-member permission, and a non-member is treated as
/// holding the weakest permission, never as unauthenticated: all callers are
/// already authenticated.
pub open spec fn spec_effective_permission(requester: Person, project: Project) -> UserPermission {
    if requester.global_permission == UserPermission::Admin {
        UserPermission::Admin
    } else if project.spec_has_member(requester.spec_db_id()) {
        project.spec_member_permission(requester.spec_db_id())
    } else {
        UserPermission::User
    }
}

pub fn effective_permission(requester: &Person, project: &Project) -> (r: UserPermission)
    requires
        project.wf(),
    ensures
        r == spec_effective_permission(*requester, *project),
{
    if requester.is_global_admin() {
        UserPermission::Admin
    } else {
        match project.local_permission_for_user(requester) {
            Some(p) => p,
            None => UserPermission::User,
        }
    }
}

/// Whether the requester may perform the action on the project.
///
/// Every mutating action except creating a project requires an effective
/// permission of `Admin`.  Creating a project requires the global `Admin`
/// permission specifically: project-local standing is meaningless before the
/// project exists, and the project argument is ignored for that action.
pub open spec fn spec_authorized_for(
    action: ProjectAction,
    requester: Person,
    project: Project,
) -> bool {
    match action {
        ProjectAction::CreateProject => requester.global_permission == UserPermission::Admin,
        _ => spec_effective_permission(requester, project) == UserPermission::Admin,
    }
}

pub fn authorized_for(action: ProjectAction, requester: &Person, project: &Project) -> (r: bool)
    requires
        project.wf(),
    ensures
        r == spec_authorized_for(action, *requester, *project),
{
    match action {
        ProjectAction::CreateProject => requester.is_global_admin(),
        _ => effective_permission(requester, project).is_admin(),
    }
}

/// A global administrator holds `Admin` on every project, regardless of the
/// contents of its member list.
pub proof fn lemma_global_admin_overrides(p: Person, g: Project)
    requires
        p.global_permission == UserPermission::Admin,
    ensures
        spec_effective_permission(p, g) == UserPermission::Admin,
{
}

/// A person who is not a member and holds no global `Admin` resolves to the
/// weakest permission.
pub proof fn lemma_non_member_is_user(p: Person, g: Project)
    requires
        p.global_permission == UserPermission::User,
        !g.spec_has_member(p.spec_db_id()),
    ensures
        spec_effective_permission(p, g) == UserPermission::User,
{
}

/// For a member who is not a global administrator, the resolver answers
/// exactly the permission stored in that member's entry.
pub proof fn lemma_member_gets_stored_permission(p: Person, g: Project, i: int)
    requires
        g.wf(),
        p.global_permission == UserPermission::User,
        0 <= i < g.members@.len(),
        same_db_id(g.members@[i].0.spec_db_id(), p.spec_db_id()),
    ensures
        spec_effective_permission(p, g) == g.members@[i].1,
{
    lemma_member_lookup(g, i, p.spec_db_id());
}

} // verus!

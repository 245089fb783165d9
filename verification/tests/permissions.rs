use projekttagebuch::identity::{DbNoMatrix, FullId, IdentityState};
use projekttagebuch::permission::{authorized_for, effective_permission, ProjectAction};
use projekttagebuch::person::Person;
use projekttagebuch::project::Project;
use projekttagebuch::user_permission::UserPermission;

fn person(id: i32, name: &str, global: UserPermission) -> Person {
    Person {
        person_id: IdentityState::StoreOnly(DbNoMatrix { db_id: id }),
        name: name.to_string(),
        global_permission: global,
        surname: None,
        firstname: None,
    }
}

fn project_with(members: Vec<(Person, UserPermission)>) -> Project {
    Project {
        project_id: IdentityState::Complete(FullId {
            db_id: 1,
            matrix_id: "0".to_string(),
        }),
        name: "P1".to_string(),
        members,
    }
}

#[test]
fn global_admin_overrides_membership() {
    let admin = person(1, "Root", UserPermission::Admin);
    // Not a member at all.
    let empty = project_with(vec![]);
    assert_eq!(effective_permission(&admin, &empty), UserPermission::Admin);
    // A member, but stored with the weakest permission.
    let demoted = project_with(vec![(person(1, "Root", UserPermission::Admin), UserPermission::User)]);
    assert_eq!(effective_permission(&admin, &demoted), UserPermission::Admin);
}

#[test]
fn non_member_without_global_admin_is_user() {
    let outsider = person(7, "Outsider", UserPermission::User);
    let g = project_with(vec![(person(1, "Alice", UserPermission::User), UserPermission::Admin)]);
    assert_eq!(effective_permission(&outsider, &g), UserPermission::User);
}

#[test]
fn member_gets_exactly_the_stored_permission() {
    let alice = person(1, "Alice", UserPermission::User);
    let bob = person(2, "Bob", UserPermission::User);
    let g = project_with(vec![
        (person(1, "Alice", UserPermission::User), UserPermission::Admin),
        (person(2, "Bob", UserPermission::User), UserPermission::User),
    ]);
    assert_eq!(effective_permission(&alice, &g), UserPermission::Admin);
    assert_eq!(effective_permission(&bob, &g), UserPermission::User);
}

#[test]
fn local_permission_ignores_global_roles() {
    let admin = person(3, "Root", UserPermission::Admin);
    let g = project_with(vec![(person(1, "Alice", UserPermission::User), UserPermission::Admin)]);
    assert_eq!(g.local_permission_for_user(&admin), None);
    let alice = person(1, "Alice", UserPermission::User);
    assert_eq!(g.local_permission_for_user(&alice), Some(UserPermission::Admin));
}

#[test]
fn create_project_requires_global_admin_specifically() {
    // A project-local administrator may change the project but not create one.
    let local_admin = person(1, "Alice", UserPermission::User);
    let g = project_with(vec![(person(1, "Alice", UserPermission::User), UserPermission::Admin)]);
    assert!(authorized_for(ProjectAction::AddMember, &local_admin, &g));
    assert!(authorized_for(ProjectAction::RenameProject, &local_admin, &g));
    assert!(!authorized_for(ProjectAction::CreateProject, &local_admin, &g));
    let global_admin = person(2, "Root", UserPermission::Admin);
    assert!(authorized_for(ProjectAction::CreateProject, &global_admin, &g));
}

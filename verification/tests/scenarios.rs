use projekttagebuch::actions::{
    add_member_to_project, create_project, remove_member_from_project, rename_project,
    set_member_permission, AddMemberError, CreateProjectError, SetPermissionError,
};
use projekttagebuch::identity::{DbNoMatrix, FullId, IdentityState};
use projekttagebuch::person::Person;
use projekttagebuch::project::Project;
use projekttagebuch::room::{Room, RoomDirectory, RoomMembership};
use projekttagebuch::store::Store;
use projekttagebuch::user_permission::UserPermission;

fn person(id: i32, name: &str, global: UserPermission) -> Person {
    Person {
        person_id: IdentityState::StoreOnly(DbNoMatrix { db_id: id }),
        name: name.to_string(),
        global_permission: global,
        surname: None,
        firstname: None,
    }
}

/// One project `P1` (store id 1, room "0") with Alice as its local admin,
/// Bob known to the store but not a member.
fn fixture() -> (Store, RoomDirectory) {
    let alice = person(1, "Alice", UserPermission::User);
    let bob = person(2, "Bob", UserPermission::User);
    let p1 = Project {
        project_id: IdentityState::Complete(FullId {
            db_id: 1,
            matrix_id: "0".to_string(),
        }),
        name: "P1".to_string(),
        members: vec![(alice.duplicate(), UserPermission::Admin)],
    };
    let store = Store {
        reachable: true,
        next_person_id: 3,
        next_project_id: 2,
        persons: vec![alice, bob],
        projects: vec![p1],
    };
    let rooms = RoomDirectory {
        reachable: true,
        next_serial: 1,
        rooms: vec![Room {
            room_id: "0".to_string(),
            display_name: "P1".to_string(),
            members: vec![("Alice".to_string(), RoomMembership::Join)],
        }],
    };
    (store, rooms)
}

#[test]
fn scenario_add_member_succeeds() {
    let (mut store, mut rooms) = fixture();
    let alice = person(1, "Alice", UserPermission::User);
    let (added, project) =
        add_member_to_project(&mut store, &mut rooms, &alice, "Bob", 1).unwrap();
    assert_eq!(added.name, "Bob");
    assert_eq!(project.members.len(), 2);
    assert_eq!(project.members[0].0.name, "Alice");
    assert_eq!(project.members[0].1, UserPermission::Admin);
    assert_eq!(project.members[1].0.name, "Bob");
    assert_eq!(project.members[1].1, UserPermission::User);
    // The store agrees with the returned snapshot.
    let stored = store.get_project(1).unwrap().unwrap();
    assert_eq!(stored.members.len(), 2);
    // The room now records an invitation for Bob.
    assert!(rooms.rooms[0]
        .members
        .iter()
        .any(|(n, s)| n == "Bob" && *s == RoomMembership::Invite));
}

#[test]
fn scenario_set_permission_forbidden_for_plain_member() {
    let (mut store, mut rooms) = fixture();
    // Bob joins first so he is a plain member.
    let alice = person(1, "Alice", UserPermission::User);
    add_member_to_project(&mut store, &mut rooms, &alice, "Bob", 1).unwrap();
    let bob = person(2, "Bob", UserPermission::User);
    let r = set_member_permission(&mut store, &bob, "Alice", 1, UserPermission::User);
    match r {
        Err(SetPermissionError::RequesterHasNoPermission(name)) => assert_eq!(name, "P1"),
        other => panic!("expected a permission error, got {:?}", other),
    }
    // The membership is unchanged.
    let stored = store.get_project(1).unwrap().unwrap();
    assert_eq!(stored.members[0].0.name, "Alice");
    assert_eq!(stored.members[0].1, UserPermission::Admin);
}

#[test]
fn scenario_remove_member_already_kicked_out_of_band() {
    let (mut store, mut rooms) = fixture();
    let alice = person(1, "Alice", UserPermission::User);
    add_member_to_project(&mut store, &mut rooms, &alice, "Bob", 1).unwrap();
    // Bob was kicked out of band: the room records him as having left.
    for entry in rooms.rooms[0].members.iter_mut() {
        if entry.0 == "Bob" {
            entry.1 = RoomMembership::Leave;
        }
    }
    // Removing him still succeeds: the absent case is idempotent, and the
    // store row goes.
    let (removed, project) =
        remove_member_from_project(&mut store, &mut rooms, &alice, "Bob", 1).unwrap();
    assert_eq!(removed.name, "Bob");
    assert_eq!(project.members.len(), 1);
    assert_eq!(project.members[0].0.name, "Alice");
}

#[test]
fn scenario_create_project_forbidden_before_any_call() {
    let (mut store, mut rooms) = fixture();
    // Even with both systems unreachable the authorization check answers
    // first: nothing is attempted.
    store.reachable = false;
    rooms.reachable = false;
    let requester = person(2, "Bob", UserPermission::User);
    let r = create_project(&mut store, &mut rooms, &requester, "NewProj".to_string());
    assert!(matches!(r, Err(CreateProjectError::RequesterHasNoPermission)));
    assert_eq!(store.projects.len(), 1);
    assert_eq!(rooms.rooms.len(), 1);
}

#[test]
fn create_project_as_global_admin() {
    let (mut store, mut rooms) = fixture();
    let root = person(2, "Root", UserPermission::Admin);
    let p = create_project(&mut store, &mut rooms, &root, "NewProj".to_string()).unwrap();
    assert_eq!(p.name, "NewProj");
    assert_eq!(p.db_id(), Some(2));
    assert_eq!(p.matrix_id(), Some("1".to_string()));
    assert_eq!(store.projects.len(), 2);
    assert_eq!(rooms.rooms.len(), 2);
    assert_eq!(rooms.rooms[1].display_name, "NewProj");
}

#[test]
fn add_member_atomic_when_room_call_fails() {
    let (mut store, mut rooms) = fixture();
    // Bob is banned from the room: the invitation must fail...
    rooms.rooms[0]
        .members
        .push(("Bob".to_string(), RoomMembership::Ban));
    let alice = person(1, "Alice", UserPermission::User);
    let r = add_member_to_project(&mut store, &mut rooms, &alice, "Bob", 1);
    assert!(matches!(
        r,
        Err(AddMemberError::Matrix(
            projekttagebuch::room::RoomError::UserIsBanned
        ))
    ));
    // ...and the store must not have committed: Bob is still absent.
    let stored = store.get_project(1).unwrap().unwrap();
    assert_eq!(stored.members.len(), 1);
    assert!(stored.members.iter().all(|(p, _)| p.name != "Bob"));
}

#[test]
fn add_member_atomic_when_room_service_is_down() {
    let (mut store, mut rooms) = fixture();
    rooms.reachable = false;
    let alice = person(1, "Alice", UserPermission::User);
    let r = add_member_to_project(&mut store, &mut rooms, &alice, "Bob", 1);
    assert!(matches!(
        r,
        Err(AddMemberError::Matrix(
            projekttagebuch::room::RoomError::Unreachable
        ))
    ));
    let stored = store.get_project(1).unwrap().unwrap();
    assert_eq!(stored.members.len(), 1);
}

#[test]
fn ensure_member_present_is_idempotent() {
    let (_, mut rooms) = fixture();
    let name = "Bob".to_string();
    // Twice in a row, with no removal in between: both calls succeed and
    // the second changes nothing.
    rooms.ensure_member_present("0", &name).unwrap();
    let after_first = rooms.rooms[0].members.clone();
    rooms.ensure_member_present("0", &name).unwrap();
    assert_eq!(rooms.rooms[0].members, after_first);
}

#[test]
fn rename_project_round_trip() {
    let (mut store, mut rooms) = fixture();
    let alice = person(1, "Alice", UserPermission::User);
    let renamed = rename_project(&mut store, &mut rooms, &alice, 1, "Better".to_string()).unwrap();
    assert_eq!(renamed.name, "Better");
    // The store-backed view answers the new name...
    let stored = store.get_project(1).unwrap().unwrap();
    assert_eq!(stored.name, "Better");
    // ...and the remote room's display name shows it too.
    assert_eq!(rooms.rooms[0].display_name, "Better");
}

#[test]
fn add_member_for_unknown_person_fails() {
    let (mut store, mut rooms) = fixture();
    let alice = person(1, "Alice", UserPermission::User);
    let r = add_member_to_project(&mut store, &mut rooms, &alice, "Nobody", 1);
    assert!(matches!(r, Err(AddMemberError::PersonDoesNotExist)));
}

#[test]
fn add_member_to_unknown_project_fails() {
    let (mut store, mut rooms) = fixture();
    let alice = person(1, "Alice", UserPermission::User);
    let r = add_member_to_project(&mut store, &mut rooms, &alice, "Bob", 99);
    assert!(matches!(r, Err(AddMemberError::ProjectDoesNotExist)));
}

#[test]
fn add_member_fails_when_store_is_down() {
    let (mut store, mut rooms) = fixture();
    store.reachable = false;
    let alice = person(1, "Alice", UserPermission::User);
    let r = add_member_to_project(&mut store, &mut rooms, &alice, "Bob", 1);
    assert!(matches!(
        r,
        Err(AddMemberError::DB(
            projekttagebuch::store::StoreFault::Unreachable
        ))
    ));
}

#[test]
fn add_member_again_leaves_membership_alone() {
    let (mut store, mut rooms) = fixture();
    let alice = person(1, "Alice", UserPermission::User);
    add_member_to_project(&mut store, &mut rooms, &alice, "Bob", 1).unwrap();
    let (_, project) = add_member_to_project(&mut store, &mut rooms, &alice, "Bob", 1).unwrap();
    assert_eq!(project.members.len(), 2);
}

#[test]
fn remove_member_when_room_is_gone_fails_without_commit() {
    let (mut store, mut rooms) = fixture();
    let alice = person(1, "Alice", UserPermission::User);
    add_member_to_project(&mut store, &mut rooms, &alice, "Bob", 1).unwrap();
    rooms.rooms.clear();
    let r = remove_member_from_project(&mut store, &mut rooms, &alice, "Bob", 1);
    assert!(matches!(
        r,
        Err(projekttagebuch::actions::RemoveMemberError::Matrix(
            projekttagebuch::room::RoomError::RoomDoesNotExist
        ))
    ));
    // The store still shows Bob: nothing was committed.
    let stored = store.get_project(1).unwrap().unwrap();
    assert_eq!(stored.members.len(), 2);
}

#[test]
fn set_member_permission_promotes_and_demotes() {
    let (mut store, mut rooms) = fixture();
    let alice = person(1, "Alice", UserPermission::User);
    add_member_to_project(&mut store, &mut rooms, &alice, "Bob", 1).unwrap();
    let (_, project) =
        set_member_permission(&mut store, &alice, "Bob", 1, UserPermission::Admin).unwrap();
    assert_eq!(project.members[1].0.name, "Bob");
    assert_eq!(project.members[1].1, UserPermission::Admin);
    let (_, project) =
        set_member_permission(&mut store, &alice, "Bob", 1, UserPermission::User).unwrap();
    assert_eq!(project.members[1].1, UserPermission::User);
}

#[test]
fn global_admin_may_act_without_membership() {
    let (mut store, mut rooms) = fixture();
    let root = person(5, "Root", UserPermission::Admin);
    // Root is no member of P1 and still may add Bob.
    let (added, project) = add_member_to_project(&mut store, &mut rooms, &root, "Bob", 1).unwrap();
    assert_eq!(added.name, "Bob");
    assert_eq!(project.members.len(), 2);
}

#[test]
fn add_member_forbidden_for_plain_member() {
    let (mut store, mut rooms) = fixture();
    let alice = person(1, "Alice", UserPermission::User);
    add_member_to_project(&mut store, &mut rooms, &alice, "Bob", 1).unwrap();
    let bob = person(2, "Bob", UserPermission::User);
    // Bob is a plain member: he may not add anyone.
    let before = store.get_project(1).unwrap().unwrap();
    let r = add_member_to_project(&mut store, &mut rooms, &bob, "Alice", 1);
    match r {
        Err(AddMemberError::RequesterHasNoPermission(name)) => assert_eq!(name, "P1"),
        other => panic!("expected a permission error, got {:?}", other),
    }
    let after = store.get_project(1).unwrap().unwrap();
    assert_eq!(before, after);
}

#[test]
fn add_member_with_unrecognized_room_state_fails_distinctly() {
    let (mut store, mut rooms) = fixture();
    rooms.rooms[0]
        .members
        .push(("Bob".to_string(), RoomMembership::Unrecognized));
    let alice = person(1, "Alice", UserPermission::User);
    let r = add_member_to_project(&mut store, &mut rooms, &alice, "Bob", 1);
    assert!(matches!(
        r,
        Err(AddMemberError::Matrix(
            projekttagebuch::room::RoomError::StateUnknown
        ))
    ));
    let stored = store.get_project(1).unwrap().unwrap();
    assert_eq!(stored.members.len(), 1);
}

#[test]
fn create_project_fails_before_the_room_when_the_store_is_down() {
    let (mut store, mut rooms) = fixture();
    store.reachable = false;
    let root = person(2, "Root", UserPermission::Admin);
    let r = create_project(&mut store, &mut rooms, &root, "NewProj".to_string());
    assert!(matches!(
        r,
        Err(CreateProjectError::DB(
            projekttagebuch::store::StoreFault::Unreachable
        ))
    ));
    // No orphaned room was created.
    assert_eq!(rooms.rooms.len(), 1);
}

#[test]
fn create_project_fails_without_a_room_service() {
    let (mut store, mut rooms) = fixture();
    rooms.reachable = false;
    let root = person(2, "Root", UserPermission::Admin);
    let r = create_project(&mut store, &mut rooms, &root, "NewProj".to_string());
    assert!(matches!(
        r,
        Err(CreateProjectError::Matrix(
            projekttagebuch::room::RoomError::Unreachable
        ))
    ));
    // The store row was never inserted.
    assert_eq!(store.projects.len(), 1);
}

#[test]
fn rename_requires_an_existing_project_and_permission() {
    let (mut store, mut rooms) = fixture();
    let alice = person(1, "Alice", UserPermission::User);
    let r = rename_project(&mut store, &mut rooms, &alice, 42, "X".to_string());
    assert!(matches!(
        r,
        Err(projekttagebuch::actions::RenameProjectError::ProjectDoesNotExist)
    ));
    let bob = person(2, "Bob", UserPermission::User);
    let r = rename_project(&mut store, &mut rooms, &bob, 1, "X".to_string());
    match r {
        Err(projekttagebuch::actions::RenameProjectError::RequesterHasNoPermission(n)) => {
            assert_eq!(n, "P1")
        }
        other => panic!("expected a permission error, got {:?}", other),
    }
    assert_eq!(store.get_project(1).unwrap().unwrap().name, "P1");
}

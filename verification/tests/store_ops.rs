use projekttagebuch::identity::{DbNoMatrix, FullId, IdentityState, MatrixNoDb, NoId};
use projekttagebuch::person::Person;
use projekttagebuch::project::Project;
use projekttagebuch::store::Store;
use projekttagebuch::user_permission::UserPermission;

fn stored_person(id: i32, name: &str) -> Person {
    Person {
        person_id: IdentityState::StoreOnly(DbNoMatrix { db_id: id }),
        name: name.to_string(),
        global_permission: UserPermission::User,
        surname: None,
        firstname: None,
    }
}

/// Two projects; the first has two members.
fn two_projects() -> Store {
    let adam = stored_person(1, "Adam");
    let berta = stored_person(2, "Berta");
    let basil = Project {
        project_id: IdentityState::Complete(FullId {
            db_id: 1,
            matrix_id: "0".to_string(),
        }),
        name: "1Basil".to_string(),
        members: vec![
            (adam.duplicate(), UserPermission::Admin),
            (berta.duplicate(), UserPermission::User),
        ],
    };
    let second = Project {
        project_id: IdentityState::Complete(FullId {
            db_id: 2,
            matrix_id: "1".to_string(),
        }),
        name: "2Sage".to_string(),
        members: vec![],
    };
    Store {
        reachable: true,
        next_person_id: 3,
        next_project_id: 3,
        persons: vec![adam, berta],
        projects: vec![basil, second],
    }
}

#[test]
fn test_add_person() {
    let mut store = Store::new();
    let person = Person {
        person_id: IdentityState::Unprovisioned(NoId {}),
        name: "John Doe".to_string(),
        global_permission: UserPermission::User,
        surname: Some("Doe".to_string()),
        firstname: Some("John".to_string()),
    };
    store.add_person(person).unwrap();
    let ps = store.get_all_persons().unwrap();
    assert_eq!(
        ps.into_iter().next().unwrap(),
        Person::new(
            IdentityState::StoreOnly(DbNoMatrix { db_id: 1 }),
            "John Doe".to_string(),
            UserPermission::User,
            Some("Doe".to_string()),
            Some("John".to_string()),
        )
    );
}

#[test]
fn add_person_rejects_a_taken_name() {
    let mut store = Store::new();
    let john = Person {
        person_id: IdentityState::Unprovisioned(NoId {}),
        name: "John".to_string(),
        global_permission: UserPermission::User,
        surname: None,
        firstname: None,
    };
    store.add_person(john.duplicate()).unwrap();
    let r = store.add_person(john);
    assert!(matches!(
        r,
        Err(projekttagebuch::store::StoreFault::Constraint)
    ));
}

#[test]
fn test_get_projects() {
    let store = two_projects();
    let projects = store.get_projects().unwrap();
    assert_eq!(projects.len(), 2);
}

#[test]
fn test_get_projects_no_users() {
    let mut store = two_projects();
    store.projects.remove(0);
    store.persons.clear();
    let projects = store.get_projects().unwrap();
    assert_eq!(projects.len(), 1);
    assert!(projects[0].members.is_empty());
}

#[test]
fn test_add_project() {
    let mut store = two_projects();
    let new_project = Project::new(
        IdentityState::RoomOnly(MatrixNoDb {
            matrix_id: "matrix-id".to_string(),
        }),
        "some new name".to_string(),
    );
    let idd_project = store.add_project(new_project).unwrap();
    assert_eq!(idd_project.db_id(), Some(3));
    assert_eq!(idd_project.matrix_id(), Some("matrix-id".to_string()));
    assert_eq!(store.projects.len(), 3);
}

#[test]
fn test_add_members() {
    let mut store = two_projects();
    // A third person joins the first project.
    let carol = store
        .add_person(Person {
            person_id: IdentityState::Unprovisioned(NoId {}),
            name: "Carol".to_string(),
            global_permission: UserPermission::User,
            surname: None,
            firstname: None,
        })
        .unwrap();
    let additions = vec![(carol, UserPermission::User)];
    store.add_members(1, &additions).unwrap();
    let project = store.get_project(1).unwrap().unwrap();
    assert_eq!(project.members.len(), 3);
}

#[test]
fn test_remove_members() {
    let mut store = two_projects();
    let adam = stored_person(1, "Adam");
    let removals = vec![adam];
    let n = store.remove_members(1, &removals).unwrap();
    assert_eq!(n, 1);
    let project = store.get_project(1).unwrap().unwrap();
    assert_eq!(project.members.len(), 1);
    assert_eq!(project.members[0].0.name, "Berta");
}

#[test]
fn test_update_members() {
    let mut store = two_projects();
    let david = store
        .add_person(Person {
            person_id: IdentityState::Unprovisioned(NoId {}),
            name: "David".to_string(),
            global_permission: UserPermission::Admin,
            surname: Some("David".to_string()),
            firstname: Some("Descartes".to_string()),
        })
        .unwrap();
    let hanna = store
        .add_person(Person {
            person_id: IdentityState::Unprovisioned(NoId {}),
            name: "Hanna".to_string(),
            global_permission: UserPermission::User,
            surname: Some("Hanna".to_string()),
            firstname: Some("Herakleia".to_string()),
        })
        .unwrap();
    let samuel = store
        .add_person(Person {
            person_id: IdentityState::Unprovisioned(NoId {}),
            name: "Samuel".to_string(),
            global_permission: UserPermission::User,
            surname: Some("Samuel".to_string()),
            firstname: Some("Shmuelov".to_string()),
        })
        .unwrap();

    let mut basil_1 = Project::new(
        IdentityState::Complete(FullId {
            db_id: 1,
            matrix_id: "matrix-id".to_string(),
        }),
        "1Basil".to_string(),
    );
    basil_1.members.push((david, UserPermission::User));
    basil_1.members.push((hanna, UserPermission::Admin));
    basil_1.members.push((samuel, UserPermission::Admin));

    store.update_project_members(&basil_1).unwrap();

    let project = store.get_project(1).unwrap().unwrap();
    assert_eq!(project.members.len(), 3);
    // The stale members are gone and the new ones carry their permissions.
    assert!(project.members.iter().all(|(p, _)| p.name != "Adam"));
    assert!(project
        .members
        .iter()
        .any(|(p, m)| p.name == "Hanna" && *m == UserPermission::Admin));
}

#[test]
fn test_update_member_permission() {
    let mut store = two_projects();
    store
        .update_member_permission(1, 1, UserPermission::User)
        .unwrap();
    let res = store.get_project(1).unwrap().unwrap();
    for (member, perm) in res.members {
        if member.db_id() == Some(1) {
            assert_eq!(perm, UserPermission::User);
        }
    }
}

#[test]
fn update_member_permission_without_a_row_is_a_no_op() {
    let mut store = two_projects();
    store
        .update_member_permission(1, 99, UserPermission::Admin)
        .unwrap();
    let res = store.get_project(1).unwrap().unwrap();
    assert_eq!(res.members.len(), 2);
    assert_eq!(res.members[1].1, UserPermission::User);
}

#[test]
fn everything_fails_when_the_store_is_unreachable() {
    let mut store = two_projects();
    store.reachable = false;
    assert!(store.get_project(1).is_err());
    assert!(store.get_projects().is_err());
    assert!(store.get_person("Adam").is_err());
    assert!(store.try_acquire_connection().is_err());
    assert!(store
        .update_member_permission(1, 1, UserPermission::Admin)
        .is_err());
}

#[test]
fn get_person_finds_exact_names_only() {
    let store = two_projects();
    let adam = store.get_person("Adam").unwrap().unwrap();
    assert_eq!(adam.db_id(), Some(1));
    assert!(store.get_person("Ada").unwrap().is_none());
    assert!(store.get_person("adam").unwrap().is_none());
}

#[test]
fn test_update_users() {
    let mut store = two_projects();
    let david = Person {
        person_id: IdentityState::Unprovisioned(NoId {}),
        name: "David".to_string(),
        global_permission: UserPermission::Admin,
        surname: Some("David".to_string()),
        firstname: Some("Descartes".to_string()),
    };
    let hanna = Person {
        person_id: IdentityState::Unprovisioned(NoId {}),
        name: "Hanna".to_string(),
        global_permission: UserPermission::User,
        surname: Some("Hanna".to_string()),
        firstname: Some("Herakleia".to_string()),
    };
    let samuel = Person {
        person_id: IdentityState::Unprovisioned(NoId {}),
        name: "Samuel".to_string(),
        global_permission: UserPermission::User,
        surname: Some("Samuel".to_string()),
        firstname: Some("Shmuelov".to_string()),
    };
    store.update_users(vec![david, hanna, samuel]).unwrap();
    let persons = store.get_all_persons().unwrap();
    assert_eq!(persons.len(), 3);
    assert!(persons.iter().all(|p| p.name != "Adam"));
}

#[test]
fn update_users_keeps_ids_and_refreshes_data() {
    let mut store = two_projects();
    let adam_again = Person {
        person_id: IdentityState::Unprovisioned(NoId {}),
        name: "Adam".to_string(),
        global_permission: UserPermission::Admin,
        surname: Some("Abrahamovitch".to_string()),
        firstname: None,
    };
    let newcomer = Person {
        person_id: IdentityState::Unprovisioned(NoId {}),
        name: "Noa".to_string(),
        global_permission: UserPermission::User,
        surname: None,
        firstname: None,
    };
    store.update_users(vec![adam_again, newcomer]).unwrap();
    let persons = store.get_all_persons().unwrap();
    assert_eq!(persons.len(), 2);
    // Adam survived with his id and refreshed data; Berta is gone; Noa is
    // new and got the next free id.
    assert_eq!(persons[0].name, "Adam");
    assert_eq!(persons[0].db_id(), Some(1));
    assert_eq!(persons[0].global_permission, UserPermission::Admin);
    assert_eq!(persons[0].surname, Some("Abrahamovitch".to_string()));
    assert_eq!(persons[1].name, "Noa");
    assert_eq!(persons[1].db_id(), Some(3));
}

#[test]
fn add_members_needs_the_project_row() {
    let mut store = two_projects();
    let carol = stored_person(7, "Carol");
    let additions = vec![(carol, UserPermission::User)];
    let r = store.add_members(42, &additions);
    assert!(matches!(
        r,
        Err(projekttagebuch::store::StoreFault::MissingRow)
    ));
}

use projekttagebuch::identity::{DbNoMatrix, FullId, IdentityState, MatrixNoDb, NoId};
use projekttagebuch::person::Person;
use projekttagebuch::project::Project;
use projekttagebuch::user_permission::UserPermission;

#[test]
fn permission_round_trips_through_the_admin_flag() {
    assert_eq!(
        UserPermission::new_from_is_admin(true),
        UserPermission::Admin
    );
    assert_eq!(
        UserPermission::new_from_is_admin(false),
        UserPermission::User
    );
    assert!(UserPermission::Admin.is_admin());
    assert!(!UserPermission::User.is_admin());
}

#[test]
fn identity_states_expose_their_dimensions() {
    let none = IdentityState::Unprovisioned(NoId {});
    assert_eq!(none.db_id(), None);
    assert_eq!(none.matrix_id(), None);

    let room_only = IdentityState::RoomOnly(MatrixNoDb {
        matrix_id: "!r:server".to_string(),
    });
    assert_eq!(room_only.db_id(), None);
    assert_eq!(room_only.matrix_id(), Some("!r:server".to_string()));

    let store_only = IdentityState::StoreOnly(DbNoMatrix { db_id: 4 });
    assert_eq!(store_only.db_id(), Some(4));
    assert_eq!(store_only.matrix_id(), None);

    let complete = IdentityState::Complete(FullId {
        db_id: 4,
        matrix_id: "!r:server".to_string(),
    });
    assert_eq!(complete.db_id(), Some(4));
    assert_eq!(complete.matrix_id(), Some("!r:server".to_string()));
}

#[test]
fn person_accessors_answer_the_stored_fields() {
    let p = Person::new(
        IdentityState::StoreOnly(DbNoMatrix { db_id: 9 }),
        "Ada".to_string(),
        UserPermission::Admin,
        Some("Lovelace".to_string()),
        Some("Ada".to_string()),
    );
    assert!(p.is_global_admin());
    assert_eq!(p.db_id(), Some(9));
    assert_eq!(p.name, "Ada");
    let q = p.duplicate();
    assert_eq!(p, q);
}

#[test]
fn project_climbs_the_provisioning_ladder() {
    let fresh = Project::new(
        IdentityState::Unprovisioned(NoId {}),
        "Garden".to_string(),
    );
    assert_eq!(fresh.db_id(), None);
    assert_eq!(fresh.matrix_id(), None);
    assert!(fresh.members.is_empty());

    let with_room = fresh.set_matrix_id("!garden:server".to_string());
    assert_eq!(with_room.db_id(), None);
    assert_eq!(with_room.matrix_id(), Some("!garden:server".to_string()));

    let complete = with_room.set_db_id(12);
    assert_eq!(complete.db_id(), Some(12));
    assert_eq!(complete.matrix_id(), Some("!garden:server".to_string()));
    assert_eq!(complete.name, "Garden");
}

#[test]
fn add_member_appends_in_order() {
    let mut project = Project::new(
        IdentityState::Complete(FullId {
            db_id: 1,
            matrix_id: "0".to_string(),
        }),
        "Garden".to_string(),
    );
    let ada = Person::new(
        IdentityState::StoreOnly(DbNoMatrix { db_id: 1 }),
        "Ada".to_string(),
        UserPermission::User,
        None,
        None,
    );
    let grace = Person::new(
        IdentityState::StoreOnly(DbNoMatrix { db_id: 2 }),
        "Grace".to_string(),
        UserPermission::User,
        None,
        None,
    );
    project.add_member(ada, UserPermission::Admin);
    project.add_member(grace, UserPermission::User);
    assert_eq!(project.members.len(), 2);
    assert_eq!(project.members[0].0.name, "Ada");
    assert_eq!(project.members[1].0.name, "Grace");
    assert_eq!(
        project.local_permission_for_user(&Person::new(
            IdentityState::StoreOnly(DbNoMatrix { db_id: 2 }),
            "Grace".to_string(),
            UserPermission::User,
            None,
            None,
        )),
        Some(UserPermission::User)
    );
}

#[test]
fn permission_labels_are_exact() {
    assert_eq!(UserPermission::User.label(), "User");
    assert_eq!(UserPermission::Admin.label(), "Admin");
}

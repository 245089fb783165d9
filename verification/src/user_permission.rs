//! Permissions that an individual user can have.
//!
//! The same two-valued scale serves twice: as a person's global permission and
//! as their permission within one project.  A global `Admin` has authority
//! over every project; a local `Admin` only within the project that granted
//! it.

use vstd::prelude::*;

verus! {

#[derive(Debug, Clone, Copy, PartialEq, Eq, Structural)]
pub enum UserPermission {
    User,
    Admin,
}

impl UserPermission {
    /// `Admin` when the flag is set, `User` otherwise.
    pub fn new_from_is_admin(is_admin: bool) -> (r: Self)
        ensures
            r == (if is_admin {
                UserPermission::Admin
            } else {
                UserPermission::User
            }),
    {
        if is_admin {
            UserPermission::Admin
        } else {
            UserPermission::User
        }
    }

    pub fn is_admin(&self) -> (r: bool)
        ensures
            r == (*self == UserPermission::Admin),
    {
        match self {
            UserPermission::User => false,
            UserPermission::Admin => true,
        }
    }

    /// The permission's name, as shown to people.
    pub fn label(&self) -> (r: String)
        ensures
            *self == UserPermission::User ==> r@ == "User"@,
            *self == UserPermission::Admin ==> r@ == "Admin"@,
    {
        match self {
            UserPermission::User => "User".to_owned(),
            UserPermission::Admin => "Admin".to_owned(),
        }
    }
}

} // verus!

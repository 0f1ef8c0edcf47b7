//! The records the application exchanges with its database.

use vstd::prelude::*;

verus! {

/// A user to be inserted, with the already-hashed password.
#[derive(Clone, Debug)]
pub struct User {
    pub username: String,
    pub password: String,
}

/// A user as the database returns it.
#[derive(Clone, Debug)]
pub struct UserQueryResult {
    pub id: i32,
    pub username: String,
    pub password: String,
}

/// One role a user holds.
#[derive(Clone, Debug)]
pub struct Role {
    pub user_id: i32,
    pub role: String,
}

/// A new participant of the tag game, pointing at the next target.
#[derive(Clone, Debug)]
pub struct NewErwischtMember {
    pub game: i32,
    pub id: i32,
    pub name: String,
    pub target: i32,
}

} // verus!

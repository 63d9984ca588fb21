use vstd::prelude::*;

verus! {

/// A stored user account.
#[derive(Debug)]
pub struct User {
    pub id: i32,
    pub token: String,
    pub name: String,
    pub email: String,
    pub password: String,
}

/// The fields of a user account that a client submits.
#[derive(Clone, Debug)]
pub struct MinimalUser {
    pub name: String,
    pub email: String,
    pub password: String,
}

} // verus!

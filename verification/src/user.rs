use vstd::prelude::*;

verus! {

/// A user record as stored and as returned to callers: the id is
/// assigned by the store, the creation timestamp is an RFC 3339 string
/// set once by the store and never changed afterwards.
#[derive(Debug)]
pub struct User {
    pub id: u32,
    pub username: String,
    pub email: String,
    pub created_at: String,
}

/// Mathematical model of a `User`: the strings as character sequences.
#[verifier::ext_equal]
pub ghost struct UserView {
    pub id: u32,
    pub username: Seq<char>,
    pub email: Seq<char>,
    pub created_at: Seq<char>,
}

impl View for User {
    type V = UserView;

    open spec fn view(&self) -> UserView {
        UserView {
            id: self.id,
            username: self.username@,
            email: self.email@,
            created_at: self.created_at@,
        }
    }
}

impl Clone for User {
    fn clone(&self) -> (r: Self)
        ensures
            r@ == self@,
    {
        User {
            id: self.id,
            username: self.username.clone(),
            email: self.email.clone(),
            created_at: self.created_at.clone(),
        }
    }
}

/// Fields a caller supplies to create a user.
#[derive(Debug)]
pub struct CreateUserRequest {
    pub username: String,
    pub email: String,
}

/// A partial update: only the fields that are present are applied,
/// absent fields keep their prior value.
#[derive(Debug)]
pub struct UpdateUserRequest {
    pub username: Option<String>,
    pub email: Option<String>,
}

impl User {
    /// Builds a fresh user stamped with the given creation time.
    pub fn new(id: u32, username: String, email: String, now: String) -> (r: Self)
        ensures
            r@ == (UserView { id: id, username: username@, email: email@, created_at: now@ }),
    {
        User { id, username, email, created_at: now }
    }
}

} // verus!

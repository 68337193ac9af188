//! Roster entries for connected clients.

use vstd::prelude::*;

verus! {

/// A connected client as the roster sees it: a display name and the session
/// id. Equality is over the id alone; the username is presentational and may
/// repeat across generations.
#[derive(Debug, Hash)]
pub struct UserInfo {
    pub username: String,
    pub id: u16,
}

impl UserInfo {
    pub fn id(&self) -> (r: u16)
        ensures
            r == self.id,
    {
        self.id
    }

    pub fn username(&self) -> (r: &str)
        ensures
            r@ == self.username@,
    {
        self.username.as_str()
    }
}

impl Clone for UserInfo {
    fn clone(&self) -> (r: Self)
        ensures
            r == *self,
    {
        UserInfo { username: self.username.clone(), id: self.id }
    }
}

impl PartialEq for UserInfo {
    fn eq(&self, other: &Self) -> (r: bool) {
        self.id == other.id
    }
}

impl Eq for UserInfo {

}

impl vstd::std_specs::cmp::PartialEqSpecImpl for UserInfo {
    open spec fn obeys_eq_spec() -> bool {
        true
    }

    open spec fn eq_spec(&self, other: &Self) -> bool {
        self.id == other.id
    }
}

} // verus!

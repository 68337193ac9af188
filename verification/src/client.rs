//! Per-connection client records and the id factory.

use vstd::prelude::*;

verus! {

/// Hands out session ids for new clients; ids start at 1 and never take the
/// reserved value 0.
pub struct ClientFactory {
    id_counter: crate::util::IdCounter,
}

impl ClientFactory {
    pub closed spec fn spec_counter(&self) -> u16 {
        self.id_counter.spec_counter()
    }

    pub fn new() -> (r: Self)
        ensures
            r.spec_counter() == 1,
    {
        ClientFactory { id_counter: crate::util::IdCounter::new() }
    }

    /// Reserves the next session id; never 0.
    pub fn reserve_id(&mut self) -> (r: u16)
        ensures
            r != 0,
            r == if old(self).spec_counter() == 0 {
                1u16
            } else {
                old(self).spec_counter()
            },
    {
        self.id_counter.new_id()
    }
}

/// What a session knows about a connected peer: display name and session id.
/// Equality is over the id alone.
#[derive(Debug, Hash)]
pub struct ClientInfo {
    username: String,
    id: u16,
}

impl ClientInfo {
    pub closed spec fn spec_id(&self) -> u16 {
        self.id
    }

    pub closed spec fn spec_username(&self) -> Seq<char> {
        self.username@
    }

    pub fn new(username: String, id: u16) -> (r: Self)
        ensures
            r.spec_id() == id,
            r.spec_username() == username@,
    {
        ClientInfo { username, id }
    }

    pub fn id(&self) -> (r: u16)
        ensures
            r == self.spec_id(),
    {
        self.id
    }

    pub fn username(&self) -> (r: &str)
        ensures
            r@ == self.spec_username(),
    {
        self.username.as_str()
    }
}

impl Clone for ClientInfo {
    fn clone(&self) -> (r: Self)
        ensures
            r == *self,
    {
        ClientInfo { username: self.username.clone(), id: self.id }
    }
}

impl PartialEq for ClientInfo {
    fn eq(&self, other: &Self) -> (r: bool) {
        self.id == other.id
    }
}

impl Eq for ClientInfo {

}

impl vstd::std_specs::cmp::PartialEqSpecImpl for ClientInfo {
    open spec fn obeys_eq_spec() -> bool {
        true
    }

    open spec fn eq_spec(&self, other: &Self) -> bool {
        self.spec_id() == other.spec_id()
    }
}

/// How receiving from a peer can fail: a malformed or unexpected frame, or a
/// closed connection. The transport layer maps its own errors onto this.
#[derive(Debug, Clone, Copy, PartialEq, Eq, Structural)]
pub enum PacketError {
    Invalid,
    Disconected,
}

/// The receive-side error as the forwarding loop reports it.
#[derive(Debug, Clone, Copy, PartialEq, Eq, Structural)]
pub enum RecieverError {
    Invalid,
    Disconected,
}

} // verus!

//! Registered clients of the reservation service.

use vstd::prelude::*;

verus! {

/// A client: unique id, email, and credential.  Reservations refer to a
/// client by id only.
#[derive(Debug)]
pub struct Usuario {
    pub id: u32,
    pub email: String,
    pub password: String,
}

impl Clone for Usuario {
    /// A clone carries the same id, email and credential.
    fn clone(&self) -> (r: Usuario)
        ensures
            r.id == self.id,
            r.email@ == self.email@,
            r.password@ == self.password@,
    {
        Usuario { id: self.id, email: self.email.clone(), password: self.password.clone() }
    }
}

impl Usuario {
    /// Build a client record.
    pub fn new(id: u32, email: String, password: String) -> (r: Usuario)
        ensures
            r.id == id,
            r.email == email,
            r.password == password,
    {
        Usuario { id, email, password }
    }

    /// Id of the client.
    pub fn get_id(&self) -> (r: u32)
        ensures
            r == self.id,
    {
        self.id
    }

    /// Email of the client.
    pub fn get_email(&self) -> (r: String)
        ensures
            r@ == self.email@,
    {
        self.email.clone()
    }

    /// Credential of the client.
    pub fn get_password(&self) -> (r: String)
        ensures
            r@ == self.password@,
    {
        self.password.clone()
    }
}

} // verus!

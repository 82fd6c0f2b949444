//! Hotel rooms: an id and a guest capacity.

use vstd::prelude::*;

verus! {

/// A hotel room.  Rooms are created at catalog load and are immutable
/// thereafter.  The fields are public so that contracts can speak of them
/// directly.
#[derive(Clone, Copy, Debug, PartialEq, Eq, Structural)]
pub struct Habitacion {
    pub cantidad_huespedes: u8,
    pub id_habitacion: u32,
}

impl Habitacion {
    /// Build a room from its id and capacity.
    pub fn nueva(id_habitacion: u32, cantidad_huespedes: u8) -> (r: Habitacion)
        ensures
            r == (Habitacion { cantidad_huespedes, id_habitacion }),
    {
        Habitacion { cantidad_huespedes, id_habitacion }
    }

    /// Guest capacity of the room.
    pub fn cantidad_huespedes(&self) -> (r: u8)
        ensures
            r == self.cantidad_huespedes,
    {
        self.cantidad_huespedes
    }

    /// Id of the room.
    pub fn id_habitacion(&self) -> (r: u32)
        ensures
            r == self.id_habitacion,
    {
        self.id_habitacion
    }

    /// Whether the room can host the given number of guests.
    pub fn can_handle_all_guest(&self, guests: u8) -> (r: bool)
        ensures
            r == (self.cantidad_huespedes >= guests),
    {
        self.cantidad_huespedes >= guests
    }
}

} // verus!

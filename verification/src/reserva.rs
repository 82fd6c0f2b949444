//! Confirmed bookings.

use crate::date::{overlaps, spec_le, spec_overlaps, Date};
use vstd::prelude::*;

verus! {

/// A confirmed booking: an inclusive date range for one room, made by one
/// client for a number of guests.  Owned exclusively by the reservation
/// store.
#[derive(Clone, Copy, Debug, PartialEq, Eq, Structural)]
pub struct Reserva {
    pub id: u32,
    pub client_id: u32,
    pub room_number_id: u32,
    pub date_start: Date,
    pub date_end: Date,
    pub cant_integrantes: u8,
}

impl Reserva {
    /// The dates are actual calendar days and the range is ordered.
    pub open spec fn wf(self) -> bool {
        self.date_start.wf() && self.date_end.wf() && spec_le(self.date_start, self.date_end)
    }

    /// Build a reservation record.
    pub fn new(
        id: u32,
        client_id: u32,
        room_number_id: u32,
        date_start: Date,
        date_end: Date,
        cant_integrantes: u8,
    ) -> (r: Reserva)
        ensures
            r == (Reserva { id, client_id, room_number_id, date_start, date_end, cant_integrantes }),
    {
        Reserva { id, client_id, room_number_id, date_start, date_end, cant_integrantes }
    }

    /// Id of the client who made the reservation.
    pub fn get_client_id(&self) -> (r: u32)
        ensures
            r == self.client_id,
    {
        self.client_id
    }

    /// All fields of the reservation, in storage order.
    pub fn get_reserve_data(&self) -> (r: (u32, u32, u32, Date, Date, u8))
        ensures
            r == (
                self.id,
                self.client_id,
                self.room_number_id,
                self.date_start,
                self.date_end,
                self.cant_integrantes,
            ),
    {
        (
            self.id,
            self.client_id,
            self.room_number_id,
            self.date_start,
            self.date_end,
            self.cant_integrantes,
        )
    }

    /// Id of the reserved room.
    pub fn get_room_number_id(&self) -> (r: u32)
        ensures
            r == self.room_number_id,
    {
        self.room_number_id
    }

    /// Whether this reservation's date range intersects the queried range.
    pub fn intersection_between_dates(&self, date_start: &Date, date_end: &Date) -> (r: bool)
        ensures
            r == spec_overlaps(self.date_start, self.date_end, *date_start, *date_end),
    {
        overlaps(&self.date_start, &self.date_end, date_start, date_end)
    }
}

} // verus!

//! The reservation store and the booking transactions on it.
//!
//! A [`Sistema`] owns the room catalog, the registered clients, the confirmed
//! reservations and both id counters.  Each operation that both checks and
//! mutates (reserve, modify, cancel) does so in one call on `&mut self`, so a
//! caller that serializes access to the store — for instance by holding it
//! behind one mutex for the whole call — gets the check-then-act atomicity
//! the booking rules need; no operation ever exposes a partially applied
//! state.  The invariants of a well-formed store:
//!
//! - no two reservations of one room have overlapping date ranges;
//! - reservation ids are pairwise distinct and below the id counter, so an
//!   id, once cancelled, is never issued again;
//! - every reservation's guest count fits its room's capacity;
//! - every reservation's date range is ordered, start on or before end;
//! - room ids and client ids are pairwise distinct.

use crate::date::{spec_le, spec_overlaps, Date};
use crate::habitacion::Habitacion;
use crate::reserva::Reserva;
use crate::usuario::Usuario;
use vstd::prelude::*;

verus! {

/// Everything that can go wrong with a booking transaction.  All of these
/// are expected, recoverable conditions, never process-fatal.
#[derive(Clone, Copy, Debug, PartialEq, Eq, Structural)]
pub enum BookingError {
    /// The requested range has its end before its start.
    InvalidDateRange,
    /// No room in the catalog has the requested id.
    UnknownRoom,
    /// The room exists but cannot hold that many guests.
    OverCapacity,
    /// Some confirmed reservation of the room overlaps the requested range.
    RoomUnavailable,
    /// No reservation has the requested id.
    NotFound,
}

/// Whether some room in `rooms` has the given id.
pub open spec fn spec_rooms_have(rooms: Seq<Habitacion>, room_id: u32) -> bool {
    exists|i: int| 0 <= i < rooms.len() && (#[trigger] rooms[i]).id_habitacion == room_id
}

/// Whether some room in `rooms` has the given id and capacity for `guests`.
pub open spec fn spec_rooms_fit(rooms: Seq<Habitacion>, room_id: u32, guests: u8) -> bool {
    exists|i: int|
        0 <= i < rooms.len() && (#[trigger] rooms[i]).id_habitacion == room_id
            && rooms[i].cantidad_huespedes >= guests
}

/// Whether some reservation in `reservations` is for the given room and
/// intersects the given range.
pub open spec fn spec_blocked_in(
    reservations: Seq<Reserva>,
    room_id: u32,
    start: Date,
    end: Date,
) -> bool {
    exists|i: int|
        0 <= i < reservations.len() && (#[trigger] reservations[i]).room_number_id == room_id
            && spec_overlaps(reservations[i].date_start, reservations[i].date_end, start, end)
}

/// Whether some reservation in `reservations` carries the given id.
pub open spec fn spec_reservations_have(reservations: Seq<Reserva>, id: u32) -> bool {
    exists|i: int| 0 <= i < reservations.len() && (#[trigger] reservations[i]).id == id
}

/// The reservation system: room catalog, clients, confirmed reservations,
/// and the two id counters.
#[derive(Debug)]
pub struct Sistema {
    reservations: Vec<Reserva>,
    clients: Vec<Usuario>,
    rooms: Vec<Habitacion>,
    next_client_id: u32,
    next_reservation_id: u32,
}

/// The two states hold exactly the same data.
pub open spec fn spec_same_state(a: Sistema, b: Sistema) -> bool {
    a.spec_reservations() == b.spec_reservations() && a.spec_clients() == b.spec_clients()
        && a.spec_rooms() == b.spec_rooms() && a.spec_next_client_id() == b.spec_next_client_id()
        && a.spec_next_reservation_id() == b.spec_next_reservation_id()
}

/// The room catalog, the clients, and the client id counter agree; only the
/// reservation side may differ.
pub open spec fn spec_same_catalog_and_clients(a: Sistema, b: Sistema) -> bool {
    a.spec_clients() == b.spec_clients() && a.spec_rooms() == b.spec_rooms()
        && a.spec_next_client_id() == b.spec_next_client_id()
}

impl Sistema {
    /// The confirmed reservations, in insertion order.
    pub closed spec fn spec_reservations(self) -> Seq<Reserva> {
        self.reservations@
    }

    /// The registered clients, in registration order.
    pub closed spec fn spec_clients(self) -> Seq<Usuario> {
        self.clients@
    }

    /// The room catalog, in catalog order.
    pub closed spec fn spec_rooms(self) -> Seq<Habitacion> {
        self.rooms@
    }

    /// The id the next registered client will receive.
    pub closed spec fn spec_next_client_id(self) -> u32 {
        self.next_client_id
    }

    /// The id the next confirmed reservation will receive.
    pub closed spec fn spec_next_reservation_id(self) -> u32 {
        self.next_reservation_id
    }

    /// Whether the catalog has a room with this id.
    pub open spec fn spec_room_exists(self, room_id: u32) -> bool {
        spec_rooms_have(self.spec_rooms(), room_id)
    }

    /// Whether the catalog has a room with this id and capacity for `guests`.
    pub open spec fn spec_room_fits(self, room_id: u32, guests: u8) -> bool {
        spec_rooms_fit(self.spec_rooms(), room_id, guests)
    }

    /// Whether some confirmed reservation of this room intersects the range.
    pub open spec fn spec_room_blocked(self, room_id: u32, start: Date, end: Date) -> bool {
        spec_blocked_in(self.spec_reservations(), room_id, start, end)
    }

    /// Whether some confirmed reservation carries this id.
    pub open spec fn spec_has_reservation(self, id: u32) -> bool {
        spec_reservations_have(self.spec_reservations(), id)
    }

    /// Well-formedness of the store; every operation preserves it.
    pub open spec fn wf(self) -> bool {
        let rooms = self.spec_rooms();
        let clients = self.spec_clients();
        let res = self.spec_reservations();
        // Room ids are pairwise distinct.
        &&& forall|i: int, j: int|
            #![trigger rooms[i], rooms[j]]
            0 <= i < j < rooms.len() ==> rooms[i].id_habitacion != rooms[j].id_habitacion
        // Client ids are pairwise distinct and below the counter.
        &&& forall|i: int, j: int|
            #![trigger clients[i], clients[j]]
            0 <= i < j < clients.len() ==> clients[i].id != clients[j].id
        &&& forall|i: int| 0 <= i < clients.len() ==> (#[trigger] clients[i]).id
            < self.spec_next_client_id()
        // Every reservation has an ordered range of actual calendar days.
        &&& forall|i: int| 0 <= i < res.len() ==> (#[trigger] res[i]).wf()
        // Reservation ids are pairwise distinct and below the counter, so
        // an id is never issued twice.
        &&& forall|i: int| 0 <= i < res.len() ==> (#[trigger] res[i]).id
            < self.spec_next_reservation_id()
        &&& forall|i: int, j: int|
            #![trigger res[i], res[j]]
            0 <= i < j < res.len() ==> res[i].id != res[j].id
        // Every reservation fits its room.
        &&& forall|i: int| 0 <= i < res.len() ==> spec_rooms_fit(
            rooms,
            (#[trigger] res[i]).room_number_id,
            res[i].cant_integrantes,
        )
        // No two reservations of one room overlap.
        &&& forall|i: int, j: int|
            #![trigger res[i], res[j]]
            0 <= i < j < res.len() && res[i].room_number_id == res[j].room_number_id
                ==> !spec_overlaps(
                res[i].date_start,
                res[i].date_end,
                res[j].date_start,
                res[j].date_end,
            )
    }

    /// Create an empty reservation system.
    pub fn new() -> (r: Sistema)
        ensures
            r.wf(),
            r.spec_reservations() == Seq::<Reserva>::empty(),
            r.spec_clients() == Seq::<Usuario>::empty(),
            r.spec_rooms() == Seq::<Habitacion>::empty(),
            r.spec_next_client_id() == 1,
            r.spec_next_reservation_id() == 1,
    {
        let r = Sistema {
            reservations: Vec::new(),
            clients: Vec::new(),
            rooms: Vec::new(),
            next_client_id: 1,
            next_reservation_id: 1,
        };
        proof {
            assert(r.spec_reservations() =~= Seq::<Reserva>::empty());
            assert(r.spec_clients() =~= Seq::<Usuario>::empty());
            assert(r.spec_rooms() =~= Seq::<Habitacion>::empty());
        }
        r
    }

    /// The id the next confirmed reservation will receive.  Callers that
    /// must stay below the counter's machine limit check this before a
    /// booking transaction.
    pub fn get_next_reservation_id(&self) -> (r: u32)
        ensures
            r == self.spec_next_reservation_id(),
    {
        self.next_reservation_id
    }

    /// The id the next registered client will receive.
    pub fn get_next_client_id(&self) -> (r: u32)
        ensures
            r == self.spec_next_client_id(),
    {
        self.next_client_id
    }

    /// The full room catalog, in catalog order.
    pub fn get_all_rooms(&self) -> (r: Vec<Habitacion>)
        ensures
            r@ == self.spec_rooms(),
    {
        let mut out: Vec<Habitacion> = Vec::new();
        let n = self.rooms.len();
        let mut k: usize = 0;
        while k < n
            invariant
                n == self.spec_rooms().len(),
                k <= n,
                out@ =~= self.spec_rooms().take(k as int),
            decreases n - k,
        {
            out.push(self.rooms[k]);
            k = k + 1;
        }
        proof {
            assert(out@ =~= self.spec_rooms());
        }
        out
    }

    /// Whether some registered client has this email.
    pub fn user_already_exists(&self, email: &String) -> (r: bool)
        ensures
            r == exists|i: int|
                0 <= i < self.spec_clients().len() && (#[trigger] self.spec_clients()[i]).email@
                    == email@,
    {
        let n = self.clients.len();
        let mut k: usize = 0;
        while k < n
            invariant
                n == self.spec_clients().len(),
                k <= n,
                forall|j: int| 0 <= j < k ==> (#[trigger] self.spec_clients()[j]).email@ != email@,
            decreases n - k,
        {
            if self.clients[k].email == *email {
                return true;
            }
            k = k + 1;
        }
        false
    }

    /// The first registered client with this email and this password, if any.
    pub fn user_correct_login(&self, email: &String, password: &String) -> (r: Option<Usuario>)
        ensures
            r is Some <==> exists|i: int|
                0 <= i < self.spec_clients().len() && spec_login_match(
                    #[trigger] self.spec_clients()[i],
                    email@,
                    password@,
                ),
            r matches Some(u) ==> exists|i: int|
                {
                    &&& 0 <= i < self.spec_clients().len()
                    &&& spec_login_match(#[trigger] self.spec_clients()[i], email@, password@)
                    &&& u.id == self.spec_clients()[i].id
                    &&& u.email@ == self.spec_clients()[i].email@
                    &&& u.password@ == self.spec_clients()[i].password@
                    &&& forall|j: int|
                        0 <= j < i ==> !spec_login_match(
                            #[trigger] self.spec_clients()[j],
                            email@,
                            password@,
                        )
                },
    {
        let n = self.clients.len();
        let mut k: usize = 0;
        while k < n
            invariant
                n == self.spec_clients().len(),
                k <= n,
                forall|j: int|
                    0 <= j < k ==> !spec_login_match(
                        #[trigger] self.spec_clients()[j],
                        email@,
                        password@,
                    ),
            decreases n - k,
        {
            if self.clients[k].email == *email && self.clients[k].password == *password {
                proof {
                    assert(spec_login_match(self.spec_clients()[k as int], email@, password@));
                }
                return Some(self.clients[k].clone());
            }
            k = k + 1;
        }
        None
    }

    /// Capacity of the room with the given id; absent when the id is
    /// unknown, which callers must treat as a different condition from
    /// "room exists but is full".
    pub fn capacity_of(&self, room_id: u32) -> (r: Option<u8>)
        requires
            self.wf(),
        ensures
            r is Some <==> self.spec_room_exists(room_id),
            r matches Some(c) ==> exists|i: int|
                0 <= i < self.spec_rooms().len() && (#[trigger] self.spec_rooms()[i]).id_habitacion
                    == room_id && self.spec_rooms()[i].cantidad_huespedes == c,
            r matches Some(c) ==> forall|g: u8| self.spec_room_fits(room_id, g) == (g <= c),
    {
        let n = self.rooms.len();
        let mut k: usize = 0;
        while k < n
            invariant
                self.wf(),
                n == self.spec_rooms().len(),
                k <= n,
                forall|j: int|
                    0 <= j < k ==> (#[trigger] self.spec_rooms()[j]).id_habitacion != room_id,
            decreases n - k,
        {
            if self.rooms[k].id_habitacion == room_id {
                let c = self.rooms[k].cantidad_huespedes;
                proof {
                    let rooms = self.spec_rooms();
                    assert forall|g: u8| self.spec_room_fits(room_id, g) == (g <= c) by {
                        if self.spec_room_fits(room_id, g) {
                            let i = choose|i: int|
                                0 <= i < rooms.len() && (#[trigger] rooms[i]).id_habitacion
                                    == room_id && rooms[i].cantidad_huespedes >= g;
                            // Room ids are unique, so the witness is the room found.
                            if i != k {
                                assert(rooms[i].id_habitacion != rooms[k as int].id_habitacion);
                            }
                        }
                        if g <= c {
                            assert(0 <= k < rooms.len() && rooms[k as int].id_habitacion == room_id
                                && rooms[k as int].cantidad_huespedes >= g);
                        }
                    }
                }
                return Some(c);
            }
            k = k + 1;
        }
        None
    }

    /// Whether some confirmed reservation of this room intersects the range.
    pub fn room_blocked(&self, room_number: u32, date_start: &Date, date_end: &Date) -> (r: bool)
        ensures
            r == self.spec_room_blocked(room_number, *date_start, *date_end),
    {
        let n = self.reservations.len();
        let mut k: usize = 0;
        while k < n
            invariant
                n == self.spec_reservations().len(),
                k <= n,
                forall|j: int|
                    0 <= j < k ==> !((#[trigger] self.spec_reservations()[j]).room_number_id
                        == room_number && spec_overlaps(
                        self.spec_reservations()[j].date_start,
                        self.spec_reservations()[j].date_end,
                        *date_start,
                        *date_end,
                    )),
            decreases n - k,
        {
            let row = &self.reservations[k];
            if row.get_room_number_id() == room_number && row.intersection_between_dates(
                date_start,
                date_end,
            ) {
                return true;
            }
            k = k + 1;
        }
        false
    }

    /// Whether no confirmed reservation of any room intersects the range.
    pub fn is_room_available_given_date(&self, date_start: &Date, date_end: &Date) -> (r: bool)
        ensures
            r == forall|i: int|
                0 <= i < self.spec_reservations().len() ==> !spec_overlaps(
                    (#[trigger] self.spec_reservations()[i]).date_start,
                    self.spec_reservations()[i].date_end,
                    *date_start,
                    *date_end,
                ),
    {
        let n = self.reservations.len();
        let mut k: usize = 0;
        while k < n
            invariant
                n == self.spec_reservations().len(),
                k <= n,
                forall|j: int|
                    0 <= j < k ==> !spec_overlaps(
                        (#[trigger] self.spec_reservations()[j]).date_start,
                        self.spec_reservations()[j].date_end,
                        *date_start,
                        *date_end,
                    ),
            decreases n - k,
        {
            let row = &self.reservations[k];
            if row.intersection_between_dates(date_start, date_end) {
                return false;
            }
            k = k + 1;
        }
        true
    }

    /// Whether the room exists and no confirmed reservation of it intersects
    /// the range.  An unknown room id fails closed: it is never available.
    pub fn is_room_available(&self, room_number: u32, date_start: &Date, date_end: &Date) -> (r:
        bool)
        requires
            self.wf(),
        ensures
            r == (self.spec_room_exists(room_number) && !self.spec_room_blocked(
                room_number,
                *date_start,
                *date_end,
            )),
    {
        match self.capacity_of(room_number) {
            None => false,
            Some(_) => !self.room_blocked(room_number, date_start, date_end),
        }
    }

    /// Availability of one room for one range; the same check as
    /// [`Sistema::is_room_available`], under the name the transport layer
    /// calls it by.
    pub fn check_availability(&self, room_number: u32, date_start: &Date, date_end: &Date) -> (r:
        bool)
        requires
            self.wf(),
        ensures
            r == (self.spec_room_exists(room_number) && !self.spec_room_blocked(
                room_number,
                *date_start,
                *date_end,
            )),
    {
        self.is_room_available(room_number, date_start, date_end)
    }
}

/// Whether this client record matches the given login data.
pub open spec fn spec_login_match(u: Usuario, email: Seq<char>, password: Seq<char>) -> bool {
    u.email@ == email && u.password@ == password
}

/// Whether a room passes the availability filter: enough capacity, and no
/// reservation in `reservations` blocks it over the range.
pub open spec fn spec_room_ok(
    h: Habitacion,
    reservations: Seq<Reserva>,
    start: Date,
    end: Date,
    guests: u8,
) -> bool {
    h.cantidad_huespedes >= guests && !spec_blocked_in(reservations, h.id_habitacion, start, end)
}

/// The rooms of the catalog, in catalog order, that pass the availability
/// filter for the given range and party size.
pub open spec fn spec_available_rooms(
    rooms: Seq<Habitacion>,
    reservations: Seq<Reserva>,
    start: Date,
    end: Date,
    guests: u8,
) -> Seq<Habitacion> {
    rooms.filter(|h: Habitacion| spec_room_ok(h, reservations, start, end, guests))
}

/// The reservations made by one client, in insertion order.
pub open spec fn spec_filter_by_client(res: Seq<Reserva>, client_id: u32) -> Seq<Reserva> {
    res.filter(|x: Reserva| x.client_id == client_id)
}

/// The reservations of one room, in insertion order.
pub open spec fn spec_filter_by_room(res: Seq<Reserva>, room_id: u32) -> Seq<Reserva> {
    res.filter(|x: Reserva| x.room_number_id == room_id)
}

impl Sistema {
    /// Register a client under the next free client id and return that id.
    pub fn add_client(&mut self, email: String, password: String) -> (r: u32)
        requires
            old(self).wf(),
            old(self).spec_next_client_id() < u32::MAX,
        ensures
            final(self).wf(),
            r == old(self).spec_next_client_id(),
            final(self).spec_clients() == old(self).spec_clients().push(
                Usuario { id: r, email, password },
            ),
            final(self).spec_next_client_id() == r + 1,
            final(self).spec_rooms() == old(self).spec_rooms(),
            final(self).spec_reservations() == old(self).spec_reservations(),
            final(self).spec_next_reservation_id() == old(self).spec_next_reservation_id(),
    {
        let id = self.next_client_id;
        let user = Usuario::new(id, email, password);
        proof {
            // Every stored client id is below the counter, so the new id is free.
            assert forall|i: int|
                0 <= i < old(self).spec_clients().len() implies (#[trigger] old(
                self,
            ).spec_clients()[i]).id != id by {}
            lemma_wf_after_push_client(*old(self), user, (id + 1) as u32);
        }
        self.clients.push(user);
        self.next_client_id = id + 1;
        id
    }

    /// Put a room into the catalog, rejecting a duplicate room id.  Used at
    /// catalog load; rooms are immutable afterwards.
    pub fn load_room(&mut self, room: Habitacion) -> (r: bool)
        requires
            old(self).wf(),
        ensures
            final(self).wf(),
            r == !old(self).spec_room_exists(room.id_habitacion),
            r ==> final(self).spec_rooms() == old(self).spec_rooms().push(room)
                && final(self).spec_clients() == old(self).spec_clients()
                && final(self).spec_reservations() == old(self).spec_reservations()
                && final(self).spec_next_client_id() == old(self).spec_next_client_id()
                && final(self).spec_next_reservation_id() == old(self).spec_next_reservation_id(),
            !r ==> spec_same_state(*old(self), *final(self)),
    {
        if self.capacity_of(room.id_habitacion).is_some() {
            return false;
        }
        proof {
            lemma_wf_after_push_room(*old(self), room);
        }
        self.rooms.push(room);
        true
    }

    /// Put a persisted client row back into the store, rejecting a row whose
    /// id is taken or cannot be kept below the id counter.  Used at startup
    /// load; a rejected row means the dataset is corrupt.
    pub fn load_client(&mut self, client: Usuario) -> (r: bool)
        requires
            old(self).wf(),
        ensures
            final(self).wf(),
            r == (client.id < u32::MAX && forall|i: int|
                0 <= i < old(self).spec_clients().len() ==> (#[trigger] old(self).spec_clients()[i]).id != client.id),
            r ==> final(self).spec_clients() == old(self).spec_clients().push(client)
                && final(self).spec_next_client_id() == spec_max_u32(
                old(self).spec_next_client_id(),
                (client.id + 1) as u32,
            ) && final(self).spec_rooms() == old(self).spec_rooms()
                && final(self).spec_reservations() == old(self).spec_reservations()
                && final(self).spec_next_reservation_id() == old(self).spec_next_reservation_id(),
            !r ==> spec_same_state(*old(self), *final(self)),
    {
        if client.id == u32::MAX {
            return false;
        }
        let n = self.clients.len();
        let mut k: usize = 0;
        while k < n
            invariant
                self.wf(),
                spec_same_state(*old(self), *self),
                n == self.spec_clients().len(),
                k <= n,
                forall|j: int| 0 <= j < k ==> (#[trigger] self.spec_clients()[j]).id != client.id,
            decreases n - k,
        {
            if self.clients[k].id == client.id {
                return false;
            }
            k = k + 1;
        }
        if client.id + 1 > self.next_client_id {
            self.next_client_id = client.id + 1;
        }
        proof {
            lemma_wf_after_push_client(*old(self), client, self.spec_next_client_id());
        }
        self.clients.push(client);
        true
    }

    /// Put a persisted reservation row back into the store, rejecting any
    /// row that would break an invariant: an unordered or impossible date
    /// range, a taken or unusable id, a room that is missing or too small,
    /// or a range that overlaps a reservation already held for that room.
    /// Used at startup load; a rejected row means the dataset is corrupt.
    pub fn load_reservation(&mut self, row: Reserva) -> (r: bool)
        requires
            old(self).wf(),
        ensures
            final(self).wf(),
            r == (row.wf() && row.id < u32::MAX && !old(self).spec_has_reservation(row.id) && old(self).spec_room_fits(row.room_number_id, row.cant_integrantes) && !old(self).spec_room_blocked(row.room_number_id, row.date_start, row.date_end)),
            r ==> final(self).spec_reservations() == old(self).spec_reservations().push(row)
                && final(self).spec_next_reservation_id() == spec_max_u32(
                old(self).spec_next_reservation_id(),
                (row.id + 1) as u32,
            ) && spec_same_catalog_and_clients(*old(self), *final(self)),
            !r ==> spec_same_state(*old(self), *final(self)),
    {
        if row.id == u32::MAX {
            return false;
        }
        if !(row.date_start.le(&row.date_end) && is_valid_date(&row.date_start) && is_valid_date(
            &row.date_end,
        )) {
            return false;
        }
        if self.exists_reservation_id(row.id) {
            return false;
        }
        let fits = match self.capacity_of(row.room_number_id) {
            None => false,
            Some(c) => row.cant_integrantes <= c,
        };
        if !fits {
            return false;
        }
        if self.room_blocked(row.room_number_id, &row.date_start, &row.date_end) {
            return false;
        }
        if row.id + 1 > self.next_reservation_id {
            self.next_reservation_id = row.id + 1;
        }
        proof {
            lemma_wf_after_push(*old(self), row, self.spec_next_reservation_id());
        }
        self.reservations.push(row);
        true
    }

    /// Append a reservation under the next free reservation id and return
    /// that id.  The store trusts its caller to have validated the booking
    /// rules — [`Sistema::reserve`] is the checked entry point.
    pub fn add_reservation(
        &mut self,
        client_id: u32,
        room_number: u32,
        date_start: Date,
        date_end: Date,
        cant_integrantes: u8,
    ) -> (r: u32)
        requires
            old(self).wf(),
            old(self).spec_next_reservation_id() < u32::MAX,
            date_start.wf(),
            date_end.wf(),
            spec_le(date_start, date_end),
            old(self).spec_room_fits(room_number, cant_integrantes),
            !old(self).spec_room_blocked(room_number, date_start, date_end),
        ensures
            final(self).wf(),
            r == old(self).spec_next_reservation_id(),
            final(self).spec_reservations() == old(self).spec_reservations().push(
                Reserva {
                    id: r,
                    client_id,
                    room_number_id: room_number,
                    date_start,
                    date_end,
                    cant_integrantes,
                },
            ),
            final(self).spec_next_reservation_id() == r + 1,
            spec_same_catalog_and_clients(*old(self), *final(self)),
    {
        let id = self.next_reservation_id;
        let row = Reserva::new(id, client_id, room_number, date_start, date_end, cant_integrantes);
        self.next_reservation_id = id + 1;
        proof {
            // The fresh id is above every stored id, so it is not in use.
            if spec_reservations_have(old(self).spec_reservations(), id) {
                let w = choose|w: int|
                    0 <= w < old(self).spec_reservations().len()
                        && (#[trigger] old(self).spec_reservations()[w]).id == id;
                assert(old(self).spec_reservations()[w].id < id);
            }
            lemma_wf_after_push(*old(self), row, (id + 1) as u32);
        }
        self.reservations.push(row);
        id
    }

    /// Whether some confirmed reservation carries this id.
    pub fn exists_reservation_id(&self, id: u32) -> (r: bool)
        ensures
            r == self.spec_has_reservation(id),
    {
        let n = self.reservations.len();
        let mut k: usize = 0;
        while k < n
            invariant
                n == self.spec_reservations().len(),
                k <= n,
                forall|j: int| 0 <= j < k ==> (#[trigger] self.spec_reservations()[j]).id != id,
            decreases n - k,
        {
            if self.reservations[k].id == id {
                return true;
            }
            k = k + 1;
        }
        false
    }

    /// Index of the reservation with this id, if any.
    fn index_of_reservation(&self, id: u32) -> (r: Option<usize>)
        ensures
            match r {
                Some(k) => k < self.spec_reservations().len()
                    && self.spec_reservations()[k as int].id == id,
                None => !self.spec_has_reservation(id),
            },
    {
        let n = self.reservations.len();
        let mut k: usize = 0;
        while k < n
            invariant
                n == self.spec_reservations().len(),
                k <= n,
                forall|j: int| 0 <= j < k ==> (#[trigger] self.spec_reservations()[j]).id != id,
            decreases n - k,
        {
            if self.reservations[k].id == id {
                return Some(k);
            }
            k = k + 1;
        }
        None
    }

    /// The reservation with this id, if any.
    pub fn find_by_id(&self, reservation_id: u32) -> (r: Option<Reserva>)
        ensures
            r is Some <==> self.spec_has_reservation(reservation_id),
            r matches Some(x) ==> x.id == reservation_id && exists|i: int|
                0 <= i < self.spec_reservations().len() && #[trigger] self.spec_reservations()[i]
                    == x,
    {
        match self.index_of_reservation(reservation_id) {
            Some(k) => Some(self.reservations[k]),
            None => None,
        }
    }

    /// Remove the reservation with this id and hand back the removed row;
    /// a missing id is a no-op, not an error.
    pub fn remove(&mut self, reservation_id: u32) -> (r: Option<Reserva>)
        requires
            old(self).wf(),
        ensures
            final(self).wf(),
            match r {
                None => !old(self).spec_has_reservation(reservation_id) && spec_same_state(
                    *old(self),
                    *final(self),
                ),
                Some(x) => x.id == reservation_id && exists|i: int|
                    0 <= i < old(self).spec_reservations().len() && old(self).spec_reservations()[i]
                        == x && final(self).spec_reservations() == #[trigger] old(self).spec_reservations().remove(i),
            },
            r is Some ==> spec_same_catalog_and_clients(*old(self), *final(self))
                && final(self).spec_next_reservation_id() == old(self).spec_next_reservation_id(),
    {
        let k = match self.index_of_reservation(reservation_id) {
            Some(k) => k,
            None => {
                return None;
            },
        };
        proof {
            lemma_wf_after_remove(*self, k as int);
            assert(0 <= k < old(self).spec_reservations().len() && old(self).spec_reservations()[k as int].id == reservation_id);
        }
        let row = self.reservations.remove(k);
        Some(row)
    }

    /// All reservations made by one client, in insertion order.
    pub fn get_reservation_by_client_id(&self, client_id: u32) -> (r: Vec<Reserva>)
        ensures
            r@ == spec_filter_by_client(self.spec_reservations(), client_id),
    {
        let n = self.reservations.len();
        let mut out: Vec<Reserva> = Vec::new();
        let mut k: usize = 0;
        while k < n
            invariant
                n == self.spec_reservations().len(),
                k <= n,
                out@ =~= spec_filter_by_client(
                    self.spec_reservations().take(k as int),
                    client_id,
                ),
            decreases n - k,
        {
            proof {
                broadcast use Seq::<_>::lemma_filter_push;

                let res = self.spec_reservations();
                assert(res.take(k as int + 1) =~= res.take(k as int).push(res[k as int]));
                assert(spec_filter_by_client(res.take(k as int + 1), client_id)
                    == spec_filter_by_client(res.take(k as int).push(res[k as int]), client_id));
            }
            if self.reservations[k].get_client_id() == client_id {
                out.push(self.reservations[k]);
            }
            k = k + 1;
        }
        proof {
            assert(self.spec_reservations().take(n as int) =~= self.spec_reservations());
        }
        out
    }

    /// All reservations of one room, in insertion order.
    pub fn all_for_room(&self, room_id: u32) -> (r: Vec<Reserva>)
        ensures
            r@ == spec_filter_by_room(self.spec_reservations(), room_id),
    {
        let n = self.reservations.len();
        let mut out: Vec<Reserva> = Vec::new();
        let mut k: usize = 0;
        while k < n
            invariant
                n == self.spec_reservations().len(),
                k <= n,
                out@ =~= spec_filter_by_room(self.spec_reservations().take(k as int), room_id),
            decreases n - k,
        {
            proof {
                broadcast use Seq::<_>::lemma_filter_push;

                let res = self.spec_reservations();
                assert(res.take(k as int + 1) =~= res.take(k as int).push(res[k as int]));
                assert(spec_filter_by_room(res.take(k as int + 1), room_id)
                    == spec_filter_by_room(res.take(k as int).push(res[k as int]), room_id));
            }
            if self.reservations[k].get_room_number_id() == room_id {
                out.push(self.reservations[k]);
            }
            k = k + 1;
        }
        proof {
            assert(self.spec_reservations().take(n as int) =~= self.spec_reservations());
        }
        out
    }

    /// The rooms, in catalog order, that have capacity for the party and no
    /// conflicting reservation over the range.  An empty result is a valid
    /// answer, not an error.
    pub fn get_available_rooms(&self, date_start: &Date, date_end: &Date, cant_integrantes: u8) -> (r:
        Vec<Habitacion>)
        ensures
            r@ == spec_available_rooms(
                self.spec_rooms(),
                self.spec_reservations(),
                *date_start,
                *date_end,
                cant_integrantes,
            ),
    {
        let n = self.rooms.len();
        let mut out: Vec<Habitacion> = Vec::new();
        let mut k: usize = 0;
        while k < n
            invariant
                n == self.spec_rooms().len(),
                k <= n,
                out@ =~= spec_available_rooms(
                    self.spec_rooms().take(k as int),
                    self.spec_reservations(),
                    *date_start,
                    *date_end,
                    cant_integrantes,
                ),
            decreases n - k,
        {
            proof {
                broadcast use Seq::<_>::lemma_filter_push;

                let rooms = self.spec_rooms();
                assert(rooms.take(k as int + 1) =~= rooms.take(k as int).push(rooms[k as int]));
                assert(spec_available_rooms(
                    rooms.take(k as int + 1),
                    self.spec_reservations(),
                    *date_start,
                    *date_end,
                    cant_integrantes,
                ) == spec_available_rooms(
                    rooms.take(k as int).push(rooms[k as int]),
                    self.spec_reservations(),
                    *date_start,
                    *date_end,
                    cant_integrantes,
                ));
            }
            let room = self.rooms[k];
            if room.can_handle_all_guest(cant_integrantes) && !self.room_blocked(
                room.id_habitacion,
                date_start,
                date_end,
            ) {
                out.push(room);
            }
            k = k + 1;
        }
        proof {
            assert(self.spec_rooms().take(n as int) =~= self.spec_rooms());
        }
        out
    }
}

/// The larger of two ids.
pub open spec fn spec_max_u32(a: u32, b: u32) -> u32 {
    if a >= b {
        a
    } else {
        b
    }
}

/// Whether the date names an actual calendar day (executable check).
fn is_valid_date(d: &Date) -> (r: bool)
    ensures
        r == d.wf(),
{
    d.year <= 9999 && 1 <= d.month && d.month <= 12 && 1 <= d.day && d.day
        <= crate::date::days_in_month(d.year, d.month)
}

/// Registering a client with a fresh id keeps the store well-formed, for
/// any client id counter at least as large as before and above the new id.
proof fn lemma_wf_after_push_client(s: Sistema, user: Usuario, next1: u32)
    requires
        s.wf(),
        user.id < next1,
        next1 >= s.spec_next_client_id(),
        forall|i: int| 0 <= i < s.spec_clients().len() ==> (#[trigger] s.spec_clients()[i]).id
            != user.id,
    ensures
        forall|t: Sistema|
            t.spec_rooms() == s.spec_rooms() && t.spec_reservations() == s.spec_reservations()
                && t.spec_next_reservation_id() == s.spec_next_reservation_id()
                && t.spec_next_client_id() == next1 && t.spec_clients() == s.spec_clients().push(
                user,
            ) ==> #[trigger] t.wf(),
{
    let c0 = s.spec_clients();
    let c1 = c0.push(user);
    assert forall|i: int, j: int|
        #![trigger c1[i], c1[j]]
        0 <= i < j < c1.len() implies c1[i].id != c1[j].id by {
        if j < c0.len() {
            assert(c1[i] == c0[i] && c1[j] == c0[j]);
        } else {
            assert(c1[j] == user && c1[i] == c0[i]);
        }
    }
    assert forall|i: int| 0 <= i < c1.len() implies (#[trigger] c1[i]).id < next1 by {
        if i < c0.len() {
            assert(c1[i] == c0[i]);
        } else {
            assert(c1[i] == user);
        }
    }
}

/// Adding a room under a fresh id keeps the store well-formed.
proof fn lemma_wf_after_push_room(s: Sistema, room: Habitacion)
    requires
        s.wf(),
        !spec_rooms_have(s.spec_rooms(), room.id_habitacion),
    ensures
        forall|t: Sistema|
            t.spec_clients() == s.spec_clients() && t.spec_reservations() == s.spec_reservations()
                && t.spec_next_client_id() == s.spec_next_client_id()
                && t.spec_next_reservation_id() == s.spec_next_reservation_id() && t.spec_rooms()
                == s.spec_rooms().push(room) ==> #[trigger] t.wf(),
{
    let rooms0 = s.spec_rooms();
    let rooms1 = rooms0.push(room);
    assert forall|i: int, j: int|
        #![trigger rooms1[i], rooms1[j]]
        0 <= i < j < rooms1.len() implies rooms1[i].id_habitacion != rooms1[j].id_habitacion by {
        if j < rooms0.len() {
            assert(rooms1[i] == rooms0[i] && rooms1[j] == rooms0[j]);
        } else {
            assert(rooms1[j] == room && rooms1[i] == rooms0[i]);
            if rooms0[i].id_habitacion == room.id_habitacion {
                assert(spec_rooms_have(rooms0, room.id_habitacion));
            }
        }
    }
    let res = s.spec_reservations();
    assert forall|i: int| 0 <= i < res.len() implies spec_rooms_fit(
        rooms1,
        (#[trigger] res[i]).room_number_id,
        res[i].cant_integrantes,
    ) by {
        let w = choose|w: int|
            0 <= w < rooms0.len() && (#[trigger] rooms0[w]).id_habitacion == res[i].room_number_id
                && rooms0[w].cantidad_huespedes >= res[i].cant_integrantes;
        assert(rooms1[w] == rooms0[w]);
    }
}

/// Pushing a fresh, fitting, non-conflicting, well-formed reservation keeps
/// the store well-formed, for any reservation id counter at least as large
/// as before and above the new row's id.
proof fn lemma_wf_after_push(s: Sistema, row: Reserva, next1: u32)
    requires
        s.wf(),
        row.wf(),
        row.id < next1,
        next1 >= s.spec_next_reservation_id(),
        !spec_reservations_have(s.spec_reservations(), row.id),
        spec_rooms_fit(s.spec_rooms(), row.room_number_id, row.cant_integrantes),
        !spec_blocked_in(s.spec_reservations(), row.room_number_id, row.date_start, row.date_end),
    ensures
        forall|t: Sistema|
            t.spec_rooms() == s.spec_rooms() && t.spec_clients() == s.spec_clients()
                && t.spec_next_client_id() == s.spec_next_client_id()
                && t.spec_next_reservation_id() == next1 && t.spec_reservations()
                == s.spec_reservations().push(row) ==> #[trigger] t.wf(),
{
    let res0 = s.spec_reservations();
    let res1 = res0.push(row);
    assert forall|i: int, j: int|
        #![trigger res1[i], res1[j]]
        0 <= i < j < res1.len() implies res1[i].id != res1[j].id && (res1[i].room_number_id
        == res1[j].room_number_id ==> !spec_overlaps(
        res1[i].date_start,
        res1[i].date_end,
        res1[j].date_start,
        res1[j].date_end,
    )) by {
        if j < res0.len() {
            assert(res1[i] == res0[i] && res1[j] == res0[j]);
        } else {
            assert(res1[j] == row && res1[i] == res0[i]);
            if res0[i].id == row.id {
                assert(spec_reservations_have(res0, row.id));
            }
            if res0[i].room_number_id == row.room_number_id && spec_overlaps(
                res0[i].date_start,
                res0[i].date_end,
                row.date_start,
                row.date_end,
            ) {
                assert(spec_blocked_in(res0, row.room_number_id, row.date_start, row.date_end));
            }
        }
    }
    assert forall|i: int| 0 <= i < res1.len() implies (#[trigger] res1[i]).wf() && res1[i].id
        < next1 && spec_rooms_fit(
        s.spec_rooms(),
        res1[i].room_number_id,
        res1[i].cant_integrantes,
    ) by {
        if i < res0.len() {
            assert(res1[i] == res0[i]);
        } else {
            assert(res1[i] == row);
        }
    }
}

/// Removing a reservation keeps the store well-formed.
proof fn lemma_wf_after_remove(s: Sistema, k: int)
    requires
        s.wf(),
        0 <= k < s.spec_reservations().len(),
    ensures
        forall|t: Sistema|
            t.spec_rooms() == s.spec_rooms() && t.spec_clients() == s.spec_clients()
                && t.spec_next_client_id() == s.spec_next_client_id()
                && t.spec_next_reservation_id() == s.spec_next_reservation_id()
                && t.spec_reservations() == s.spec_reservations().remove(k) ==> #[trigger] t.wf(),
{
    let res0 = s.spec_reservations();
    let res1 = res0.remove(k);
    res0.remove_ensures(k);
    assert forall|i: int| 0 <= i < res1.len() implies (#[trigger] res1[i]).wf() && res1[i].id
        < s.spec_next_reservation_id() && spec_rooms_fit(
        s.spec_rooms(),
        res1[i].room_number_id,
        res1[i].cant_integrantes,
    ) by {
        if i < k {
            assert(res1[i] == res0[i]);
        } else {
            assert(res1[i] == res0[i + 1]);
        }
    }
    assert forall|i: int, j: int|
        #![trigger res1[i], res1[j]]
        0 <= i < j < res1.len() implies res1[i].id != res1[j].id && (res1[i].room_number_id
        == res1[j].room_number_id ==> !spec_overlaps(
        res1[i].date_start,
        res1[i].date_end,
        res1[j].date_start,
        res1[j].date_end,
    )) by {
        let i0 = if i < k {
            i
        } else {
            i + 1
        };
        let j0 = if j < k {
            j
        } else {
            j + 1
        };
        assert(res1[i] == res0[i0] && res1[j] == res0[j0]);
    }
}

/// The outcome of the checked booking transaction on a given store: the
/// first failing validation, or nothing when the booking goes through.
pub open spec fn spec_reserve_outcome(
    s: Sistema,
    room_id: u32,
    date_start: Date,
    date_end: Date,
    guests: u8,
) -> Option<BookingError> {
    if !spec_le(date_start, date_end) {
        Some(BookingError::InvalidDateRange)
    } else if !s.spec_room_exists(room_id) {
        Some(BookingError::UnknownRoom)
    } else if !s.spec_room_fits(room_id, guests) {
        Some(BookingError::OverCapacity)
    } else if s.spec_room_blocked(room_id, date_start, date_end) {
        Some(BookingError::RoomUnavailable)
    } else {
        None
    }
}

/// The outcome of re-reserving `row`'s room with new parameters, against the
/// store `s` with `row` itself already taken out (`reduced`): the overlap
/// re-check must not see the reservation being modified, else it would
/// conflict with itself.
pub open spec fn spec_modify_outcome(
    s: Sistema,
    row: Reserva,
    reduced: Seq<Reserva>,
    new_start: Date,
    new_end: Date,
    new_guests: u8,
) -> Option<BookingError> {
    if !spec_le(new_start, new_end) {
        Some(BookingError::InvalidDateRange)
    } else if !s.spec_room_exists(row.room_number_id) {
        Some(BookingError::UnknownRoom)
    } else if !s.spec_room_fits(row.room_number_id, new_guests) {
        Some(BookingError::OverCapacity)
    } else if spec_blocked_in(reduced, row.room_number_id, new_start, new_end) {
        Some(BookingError::RoomUnavailable)
    } else {
        None
    }
}

/// A store holding the same data as a well-formed store is well-formed.
proof fn lemma_wf_same_state(s: Sistema, t: Sistema)
    requires
        s.wf(),
        spec_same_state(s, t),
    ensures
        t.wf(),
{
}

impl Sistema {
    /// The booking transaction: validate the date range, the room and the
    /// capacity, then — within this one exclusive call — check availability
    /// and insert.  The whole check-then-insert sequence runs on `&mut self`,
    /// so no other booking for the same room can slip in between the check
    /// and the insert.  On any error the store is left exactly as it was.
    pub fn reserve(
        &mut self,
        client_id: u32,
        room_id: u32,
        date_start: Date,
        date_end: Date,
        guests: u8,
    ) -> (r: Result<u32, BookingError>)
        requires
            old(self).wf(),
            date_start.wf(),
            date_end.wf(),
            old(self).spec_next_reservation_id() < u32::MAX,
        ensures
            final(self).wf(),
            match spec_reserve_outcome(*old(self), room_id, date_start, date_end, guests) {
                Some(e) => r == Err::<u32, BookingError>(e) && spec_same_state(
                    *old(self),
                    *final(self),
                ),
                None => r == Ok::<u32, BookingError>(old(self).spec_next_reservation_id())
                    && final(self).spec_reservations() == old(self).spec_reservations().push(
                    (Reserva {
                        id: old(self).spec_next_reservation_id(),
                        client_id,
                        room_number_id: room_id,
                        date_start,
                        date_end,
                        cant_integrantes: guests,
                    }),
                ) && final(self).spec_next_reservation_id() == old(
                    self,
                ).spec_next_reservation_id() + 1 && spec_same_catalog_and_clients(
                    *old(self),
                    *final(self),
                ),
            },
    {
        if !date_start.le(&date_end) {
            return Err(BookingError::InvalidDateRange);
        }
        let cap = match self.capacity_of(room_id) {
            None => {
                return Err(BookingError::UnknownRoom);
            },
            Some(c) => c,
        };
        if guests > cap {
            return Err(BookingError::OverCapacity);
        }
        if self.room_blocked(room_id, &date_start, &date_end) {
            return Err(BookingError::RoomUnavailable);
        }
        Ok(self.add_reservation(client_id, room_id, date_start, date_end, guests))
    }

    /// Cancel by id: remove the reservation and hand its id back.  A missing
    /// id is `NotFound` and leaves the store untouched — no id is consumed,
    /// so cancelling twice is safe.
    pub fn cancel(&mut self, reservation_id: u32) -> (r: Result<u32, BookingError>)
        requires
            old(self).wf(),
        ensures
            final(self).wf(),
            old(self).spec_has_reservation(reservation_id) ==> r == Ok::<u32, BookingError>(
                reservation_id,
            ) && (exists|i: int|
                0 <= i < old(self).spec_reservations().len() && (#[trigger] old(
                    self,
                ).spec_reservations()[i]).id == reservation_id && final(self).spec_reservations()
                    == old(self).spec_reservations().remove(i)) && spec_same_catalog_and_clients(
                *old(self),
                *final(self),
            ) && final(self).spec_next_reservation_id() == old(self).spec_next_reservation_id(),
            !old(self).spec_has_reservation(reservation_id) ==> r == Err::<u32, BookingError>(
                BookingError::NotFound,
            ) && spec_same_state(*old(self), *final(self)),
    {
        match self.remove(reservation_id) {
            Some(_) => Ok(reservation_id),
            None => Err(BookingError::NotFound),
        }
    }

    /// Modify a reservation: take the old row out, then re-reserve the same
    /// room for the same client with the new parameters.  The overlap
    /// re-check runs with the old row already removed, so the reservation
    /// never conflicts with itself.  When the re-reserve fails, the original
    /// row is put back unchanged — same id, same place — and the failure is
    /// returned; the store is then exactly as it was.
    pub fn modify(
        &mut self,
        reservation_id: u32,
        new_start: Date,
        new_end: Date,
        new_guests: u8,
    ) -> (r: Result<u32, BookingError>)
        requires
            old(self).wf(),
            new_start.wf(),
            new_end.wf(),
            old(self).spec_next_reservation_id() < u32::MAX,
        ensures
            final(self).wf(),
            !old(self).spec_has_reservation(reservation_id) ==> r == Err::<u32, BookingError>(
                BookingError::NotFound,
            ) && spec_same_state(*old(self), *final(self)),
            old(self).spec_has_reservation(reservation_id) ==> exists|i: int|
                {
                    &&& 0 <= i < old(self).spec_reservations().len()
                    &&& (#[trigger] old(self).spec_reservations()[i]).id == reservation_id
                    &&& match spec_modify_outcome(
                        *old(self),
                        old(self).spec_reservations()[i],
                        old(self).spec_reservations().remove(i),
                        new_start,
                        new_end,
                        new_guests,
                    ) {
                        Some(e) => r == Err::<u32, BookingError>(e) && spec_same_state(
                            *old(self),
                            *final(self),
                        ),
                        None => r == Ok::<u32, BookingError>(
                            old(self).spec_next_reservation_id(),
                        ) && final(self).spec_reservations() == old(
                            self,
                        ).spec_reservations().remove(i).push(
                            (Reserva {
                                id: old(self).spec_next_reservation_id(),
                                client_id: old(self).spec_reservations()[i].client_id,
                                room_number_id: old(self).spec_reservations()[i].room_number_id,
                                date_start: new_start,
                                date_end: new_end,
                                cant_integrantes: new_guests,
                            }),
                        ) && final(self).spec_next_reservation_id() == old(
                            self,
                        ).spec_next_reservation_id() + 1 && spec_same_catalog_and_clients(
                            *old(self),
                            *final(self),
                        ),
                    }
                },
    {
        let k = match self.index_of_reservation(reservation_id) {
            None => {
                return Err(BookingError::NotFound);
            },
            Some(k) => k,
        };
        let row = self.reservations[k];
        proof {
            lemma_wf_after_remove(*self, k as int);
        }
        self.reservations.remove(k);
        proof {
            assert(self.wf());
        }
        match self.reserve(row.client_id, row.room_number_id, new_start, new_end, new_guests) {
            Ok(new_id) => Ok(new_id),
            Err(e) => {
                // Compensating re-insert: the original row, back in its
                // original place, under its original id.
                self.reservations.insert(k, row);
                proof {
                    assert(self.spec_reservations() =~= old(self).spec_reservations());
                    lemma_wf_same_state(*old(self), *self);
                }
                Err(e)
            },
        }
    }
}

/// No double-booking: a well-formed store never holds two reservations of
/// one room whose date ranges overlap.  Every operation of the store keeps
/// it well-formed, so this holds after any sequence of transactions.
pub proof fn lemma_no_double_booking(s: Sistema, i: int, j: int)
    requires
        s.wf(),
        0 <= i < s.spec_reservations().len(),
        0 <= j < s.spec_reservations().len(),
        i != j,
        s.spec_reservations()[i].room_number_id == s.spec_reservations()[j].room_number_id,
    ensures
        !spec_overlaps(
            s.spec_reservations()[i].date_start,
            s.spec_reservations()[i].date_end,
            s.spec_reservations()[j].date_start,
            s.spec_reservations()[j].date_end,
        ),
{
    let res = s.spec_reservations();
    if i < j {
        assert(!spec_overlaps(
            res[i].date_start,
            res[i].date_end,
            res[j].date_start,
            res[j].date_end,
        ));
    } else {
        assert(!spec_overlaps(
            res[j].date_start,
            res[j].date_end,
            res[i].date_start,
            res[i].date_end,
        ));
        crate::date::lemma_overlaps_symmetric(
            res[i].date_start,
            res[i].date_end,
            res[j].date_start,
            res[j].date_end,
        );
    }
}

/// Of two overlapping booking requests for one room, at most one succeeds:
/// once a reservation of the room overlapping the requested range is in the
/// store, the booking transaction refuses an otherwise valid request over
/// that range.
pub proof fn lemma_overlapping_booking_is_refused(
    t: Sistema,
    i: int,
    room_id: u32,
    b_start: Date,
    b_end: Date,
    guests: u8,
)
    requires
        0 <= i < t.spec_reservations().len(),
        t.spec_reservations()[i].room_number_id == room_id,
        spec_overlaps(
            t.spec_reservations()[i].date_start,
            t.spec_reservations()[i].date_end,
            b_start,
            b_end,
        ),
        spec_le(b_start, b_end),
        t.spec_room_fits(room_id, guests),
    ensures
        spec_reserve_outcome(t, room_id, b_start, b_end, guests) == Some(
            BookingError::RoomUnavailable,
        ),
{
    assert(t.spec_room_blocked(room_id, b_start, b_end));
}

/// Id freshness: in a well-formed store every held reservation id is below
/// the id counter, so the id the next insert issues is larger than every id
/// ever stored and is not in use — ids are strictly increasing and are never
/// reused, no matter how inserts and cancels interleave.
pub proof fn lemma_next_id_fresh(s: Sistema)
    requires
        s.wf(),
    ensures
        forall|i: int| 0 <= i < s.spec_reservations().len() ==> (
        #[trigger] s.spec_reservations()[i]).id < s.spec_next_reservation_id(),
        !s.spec_has_reservation(s.spec_next_reservation_id()),
{
    if s.spec_has_reservation(s.spec_next_reservation_id()) {
        let w = choose|w: int|
            0 <= w < s.spec_reservations().len() && (#[trigger] s.spec_reservations()[w]).id
                == s.spec_next_reservation_id();
        assert(s.spec_reservations()[w].id < s.spec_next_reservation_id());
    }
}

} // verus!

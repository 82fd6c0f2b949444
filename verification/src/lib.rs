//! A hotel-room reservation library.
//!
//! The heart of the crate is the booking consistency engine: a calendar-date
//! model with an interval-overlap predicate ([`date`]), and on top of it the
//! room catalog, clients, reservations, and the reservation store with its
//! atomic check-then-reserve transactions.  Every operation carries a
//! contract, and the store's invariants (no two reservations of one room
//! overlap, reservation ids are never reused, guest counts never exceed room
//! capacity) are machine-checked.

pub mod date;
pub mod habitacion;
pub mod input_validator;
pub mod reserva;
pub mod sistema;
pub mod usuario;

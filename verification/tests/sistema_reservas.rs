//! Tests for the reservation store, the availability engine, and the
//! booking transactions.

use reservas::date::Date;
use reservas::habitacion::Habitacion;
use reservas::reserva::Reserva;
use reservas::sistema::{BookingError, Sistema};
use reservas::usuario::Usuario;

fn d(s: &str) -> Date {
    Date::parse(s).unwrap()
}

/// A catalog with Room 1 (capacity 2) and Room 2 (capacity 4).
fn two_room_system() -> Sistema {
    let mut s = Sistema::new();
    assert!(s.load_room(Habitacion::nueva(1, 2)));
    assert!(s.load_room(Habitacion::nueva(2, 4)));
    s
}

#[test]
fn room_getters() {
    let h = Habitacion::nueva(7, 3);
    assert_eq!(h.id_habitacion(), 7);
    assert_eq!(h.cantidad_huespedes(), 3);
    assert!(h.can_handle_all_guest(3));
    assert!(h.can_handle_all_guest(2));
    assert!(!h.can_handle_all_guest(4));
}

#[test]
fn user_getters() {
    let u = Usuario::new(4, String::from("a@b.c"), String::from("secret"));
    assert_eq!(u.get_id(), 4);
    assert_eq!(u.get_email(), "a@b.c");
    assert_eq!(u.get_password(), "secret");
}

#[test]
fn reservation_getters() {
    let r = Reserva::new(9, 4, 1, d("2025-03-01"), d("2025-03-05"), 2);
    assert_eq!(r.get_client_id(), 4);
    assert_eq!(r.get_room_number_id(), 1);
    assert_eq!(r.get_reserve_data(), (9, 4, 1, d("2025-03-01"), d("2025-03-05"), 2));
    assert!(r.intersection_between_dates(&d("2025-03-05"), &d("2025-03-09")));
    assert!(!r.intersection_between_dates(&d("2025-03-06"), &d("2025-03-09")));
}

#[test]
fn end_to_end_scenario() {
    let mut s = two_room_system();
    // Book Room 1 for 2025-03-01..2025-03-05.
    assert_eq!(s.reserve(7, 1, d("2025-03-01"), d("2025-03-05"), 2), Ok(1));
    // Room 1 is blocked over an overlapping range, even though its capacity
    // would suffice; only Room 2 remains.
    let avail = s.get_available_rooms(&d("2025-03-03"), &d("2025-03-06"), 1);
    assert_eq!(avail.len(), 1);
    assert_eq!(avail[0].id_habitacion(), 2);
    // A non-overlapping second booking of Room 1 succeeds and gets id 2.
    assert_eq!(s.reserve(7, 1, d("2025-03-06"), d("2025-03-10"), 2), Ok(2));
}

#[test]
fn no_double_booking_under_overlap() {
    let mut s = two_room_system();
    assert_eq!(s.reserve(7, 1, d("2025-03-01"), d("2025-03-05"), 2), Ok(1));
    // The same room over any overlapping range is refused...
    assert_eq!(
        s.reserve(8, 1, d("2025-03-05"), d("2025-03-09"), 1),
        Err(BookingError::RoomUnavailable)
    );
    assert_eq!(
        s.reserve(8, 1, d("2025-02-20"), d("2025-03-01"), 1),
        Err(BookingError::RoomUnavailable)
    );
    // ...and the store still holds exactly the one reservation.
    assert_eq!(s.all_for_room(1).len(), 1);
    // Another room over the same dates is fine.
    assert_eq!(s.reserve(8, 2, d("2025-03-01"), d("2025-03-05"), 1), Ok(2));
}

#[test]
fn arrival_order_decides_among_conflicting_requests() {
    let mut s = two_room_system();
    let attempts = [
        ("2025-05-01", "2025-05-10"),
        ("2025-05-05", "2025-05-06"),
        ("2025-05-10", "2025-05-12"),
        ("2025-05-11", "2025-05-15"),
        ("2025-05-13", "2025-05-20"),
    ];
    let mut accepted = 0;
    for (a, b) in attempts {
        if s.reserve(7, 1, d(a), d(b), 1).is_ok() {
            accepted += 1;
        }
    }
    // Exactly the non-overlapping subset in arrival order survives:
    // [05-01,05-10] blocks the next two; [05-11,05-15] enters and blocks
    // the last one.
    assert_eq!(accepted, 2);
    assert_eq!(s.all_for_room(1).len(), 2);
}

#[test]
fn capacity_is_enforced() {
    let mut s = two_room_system();
    // Room 1 holds at most 2 guests: 3 is refused, nothing is inserted.
    assert_eq!(s.reserve(7, 1, d("2025-03-01"), d("2025-03-05"), 3), Err(BookingError::OverCapacity));
    assert_eq!(s.all_for_room(1).len(), 0);
    assert_eq!(s.get_reservation_by_client_id(7).len(), 0);
    // At the capacity itself the booking goes through.
    assert_eq!(s.reserve(7, 1, d("2025-03-01"), d("2025-03-05"), 2), Ok(1));
}

#[test]
fn reserve_validates_range_and_room() {
    let mut s = two_room_system();
    assert_eq!(
        s.reserve(7, 1, d("2025-03-05"), d("2025-03-01"), 2),
        Err(BookingError::InvalidDateRange)
    );
    assert_eq!(s.reserve(7, 99, d("2025-03-01"), d("2025-03-05"), 2), Err(BookingError::UnknownRoom));
    // The range check comes first, the room check second.
    assert_eq!(
        s.reserve(7, 99, d("2025-03-05"), d("2025-03-01"), 2),
        Err(BookingError::InvalidDateRange)
    );
    assert_eq!(s.all_for_room(1).len(), 0);
}

#[test]
fn cancel_is_idempotent_and_consumes_no_id() {
    let mut s = two_room_system();
    // Cancelling an id that never existed is NotFound and changes nothing.
    assert_eq!(s.cancel(1), Err(BookingError::NotFound));
    assert_eq!(s.reserve(7, 1, d("2025-03-01"), d("2025-03-05"), 2), Ok(1));
    assert_eq!(s.cancel(1), Ok(1));
    // A second cancel of the same id is NotFound again; the store is empty.
    assert_eq!(s.cancel(1), Err(BookingError::NotFound));
    assert_eq!(s.all_for_room(1).len(), 0);
    // The failed cancels consumed no id: the next booking gets 2, not more.
    assert_eq!(s.reserve(7, 1, d("2025-03-01"), d("2025-03-05"), 2), Ok(2));
}

#[test]
fn ids_increase_and_are_never_reused() {
    let mut s = two_room_system();
    assert_eq!(s.reserve(7, 1, d("2025-01-01"), d("2025-01-05"), 1), Ok(1));
    assert_eq!(s.reserve(7, 2, d("2025-01-01"), d("2025-01-05"), 1), Ok(2));
    assert_eq!(s.cancel(1), Ok(1));
    // Even with id 1 free again, the next booking gets a fresh id.
    assert_eq!(s.reserve(7, 1, d("2025-02-01"), d("2025-02-05"), 1), Ok(3));
    assert_eq!(s.cancel(3), Ok(3));
    assert_eq!(s.cancel(2), Ok(2));
    assert_eq!(s.reserve(7, 1, d("2025-03-01"), d("2025-03-05"), 1), Ok(4));
}

#[test]
fn availability_distinguishes_unknown_rooms() {
    let mut s = two_room_system();
    assert_eq!(s.capacity_of(1), Some(2));
    assert_eq!(s.capacity_of(2), Some(4));
    assert_eq!(s.capacity_of(3), None);
    // An unknown room fails closed.
    assert!(!s.is_room_available(3, &d("2025-03-01"), &d("2025-03-05")));
    assert!(s.is_room_available(1, &d("2025-03-01"), &d("2025-03-05")));
    assert_eq!(s.reserve(7, 1, d("2025-03-01"), d("2025-03-05"), 2), Ok(1));
    assert!(!s.is_room_available(1, &d("2025-03-05"), &d("2025-03-07")));
    assert!(s.is_room_available(1, &d("2025-03-06"), &d("2025-03-07")));
    assert!(s.check_availability(1, &d("2025-03-06"), &d("2025-03-07")));
    assert!(!s.is_room_available_given_date(&d("2025-03-04"), &d("2025-03-06")));
    assert!(s.is_room_available_given_date(&d("2025-03-06"), &d("2025-03-08")));
}

#[test]
fn available_rooms_keep_catalog_order_and_filter_capacity() {
    let mut s = two_room_system();
    let all = s.get_available_rooms(&d("2025-03-01"), &d("2025-03-05"), 1);
    assert_eq!(all.len(), 2);
    assert_eq!(all[0].id_habitacion(), 1);
    assert_eq!(all[1].id_habitacion(), 2);
    // Only Room 2 can take 3 guests.
    let big = s.get_available_rooms(&d("2025-03-01"), &d("2025-03-05"), 3);
    assert_eq!(big.len(), 1);
    assert_eq!(big[0].id_habitacion(), 2);
    // Nothing can take 5 guests: a valid, empty answer.
    let none = s.get_available_rooms(&d("2025-03-01"), &d("2025-03-05"), 5);
    assert_eq!(none.len(), 0);
}

#[test]
fn modify_moves_a_reservation() {
    let mut s = two_room_system();
    assert_eq!(s.reserve(7, 1, d("2025-03-01"), d("2025-03-05"), 2), Ok(1));
    // Move the booking to a free range: the old row goes, a fresh id comes.
    assert_eq!(s.modify(1, d("2025-04-01"), d("2025-04-05"), 2), Ok(2));
    assert_eq!(s.find_by_id(1), None);
    let moved = s.find_by_id(2).unwrap();
    assert_eq!(moved.get_room_number_id(), 1);
    assert_eq!(moved.get_client_id(), 7);
    assert_eq!(moved.get_reserve_data().3, d("2025-04-01"));
    assert_eq!(moved.get_reserve_data().5, 2);
}

#[test]
fn modify_does_not_conflict_with_itself() {
    let mut s = two_room_system();
    assert_eq!(s.reserve(7, 1, d("2025-03-01"), d("2025-03-05"), 2), Ok(1));
    // The new range overlaps the old one; since the old row is taken out
    // before the re-check, this succeeds.
    assert_eq!(s.modify(1, d("2025-03-03"), d("2025-03-07"), 2), Ok(2));
    assert_eq!(s.all_for_room(1).len(), 1);
}

#[test]
fn failed_modify_restores_the_original() {
    let mut s = two_room_system();
    assert_eq!(s.reserve(7, 1, d("2025-03-01"), d("2025-03-05"), 2), Ok(1));
    assert_eq!(s.reserve(8, 1, d("2025-03-10"), d("2025-03-15"), 2), Ok(2));
    // Moving booking 1 onto booking 2's range fails...
    assert_eq!(s.modify(1, d("2025-03-12"), d("2025-03-14"), 2), Err(BookingError::RoomUnavailable));
    // ...and the original row is back, unchanged, under its original id.
    let kept = s.find_by_id(1).unwrap();
    assert_eq!(kept.get_reserve_data(), (1, 7, 1, d("2025-03-01"), d("2025-03-05"), 2));
    // An over-capacity modify also compensates.
    assert_eq!(s.modify(1, d("2025-03-01"), d("2025-03-05"), 9), Err(BookingError::OverCapacity));
    assert_eq!(s.find_by_id(1).unwrap().get_reserve_data().5, 2);
    // A modify of a missing id is NotFound.
    assert_eq!(s.modify(77, d("2025-03-01"), d("2025-03-05"), 1), Err(BookingError::NotFound));
}

#[test]
fn store_queries_filter_by_client_and_room() {
    let mut s = two_room_system();
    assert_eq!(s.reserve(7, 1, d("2025-03-01"), d("2025-03-05"), 2), Ok(1));
    assert_eq!(s.reserve(8, 2, d("2025-03-01"), d("2025-03-05"), 4), Ok(2));
    assert_eq!(s.reserve(7, 2, d("2025-03-06"), d("2025-03-08"), 1), Ok(3));
    let of_seven = s.get_reservation_by_client_id(7);
    assert_eq!(of_seven.len(), 2);
    assert_eq!(of_seven[0].get_reserve_data().0, 1);
    assert_eq!(of_seven[1].get_reserve_data().0, 3);
    let of_room2 = s.all_for_room(2);
    assert_eq!(of_room2.len(), 2);
    assert_eq!(of_room2[0].get_client_id(), 8);
    assert_eq!(s.get_reservation_by_client_id(9).len(), 0);
    let removed = s.remove(2).unwrap();
    assert_eq!(removed.get_client_id(), 8);
    assert_eq!(s.remove(2), None);
    assert_eq!(s.all_for_room(2).len(), 1);
}

#[test]
fn clients_register_and_log_in() {
    let mut s = Sistema::new();
    let alice = s.add_client(String::from("alice@mail.com"), String::from("secret1"));
    let bob = s.add_client(String::from("bob@mail.com"), String::from("secret2"));
    assert_eq!(alice, 1);
    assert_eq!(bob, 2);
    assert!(s.user_already_exists(&String::from("alice@mail.com")));
    assert!(!s.user_already_exists(&String::from("carol@mail.com")));
    let u = s
        .user_correct_login(&String::from("bob@mail.com"), &String::from("secret2"))
        .unwrap();
    assert_eq!(u.get_id(), 2);
    assert!(s
        .user_correct_login(&String::from("bob@mail.com"), &String::from("wrong"))
        .is_none());
}

#[test]
fn loading_rejects_corrupt_rows() {
    let mut s = Sistema::new();
    assert!(s.load_room(Habitacion::nueva(1, 2)));
    // A second room under the same id is corrupt data.
    assert!(!s.load_room(Habitacion::nueva(1, 9)));
    assert!(s.load_client(Usuario::new(5, String::from("a@b.c"), String::from("12345"))));
    assert!(!s.load_client(Usuario::new(5, String::from("x@y.z"), String::from("12345"))));
    // After loading client 5, fresh registrations continue above it.
    assert_eq!(s.add_client(String::from("new@mail.com"), String::from("12345")), 6);
    let good = Reserva::new(3, 5, 1, d("2025-03-01"), d("2025-03-05"), 2);
    assert!(s.load_reservation(good));
    // Duplicate id, unknown room, over capacity, unordered range, and
    // overlapping range are each rejected.
    assert!(!s.load_reservation(Reserva::new(3, 5, 1, d("2025-06-01"), d("2025-06-05"), 2)));
    assert!(!s.load_reservation(Reserva::new(4, 5, 9, d("2025-06-01"), d("2025-06-05"), 2)));
    assert!(!s.load_reservation(Reserva::new(4, 5, 1, d("2025-06-01"), d("2025-06-05"), 3)));
    assert!(!s.load_reservation(Reserva::new(4, 5, 1, d("2025-06-05"), d("2025-06-01"), 2)));
    assert!(!s.load_reservation(Reserva::new(4, 5, 1, d("2025-03-05"), d("2025-03-09"), 2)));
    assert_eq!(s.all_for_room(1).len(), 1);
    // After loading reservation 3, fresh bookings continue above it.
    assert_eq!(s.reserve(5, 1, d("2025-07-01"), d("2025-07-05"), 2), Ok(4));
}

#[test]
fn add_reservation_appends_under_the_next_id() {
    let mut s = two_room_system();
    let id = s.add_reservation(7, 1, d("2025-03-01"), d("2025-03-05"), 2);
    assert_eq!(id, 1);
    let row = s.find_by_id(1).unwrap();
    assert_eq!(row.get_reserve_data(), (1, 7, 1, d("2025-03-01"), d("2025-03-05"), 2));
    assert_eq!(s.get_next_reservation_id(), 2);
}

use lifegame::cell::{Cell, Point};

#[test]
fn point_keeps_its_coordinates() {
    let p = Point::new(3, 7);
    assert_eq!(p.x(), 3);
    assert_eq!(p.y(), 7);
}

#[test]
fn fresh_cell_is_dead_with_no_relations() {
    let c = Cell::new(Point::new(2, 5));
    assert!(!c.get_survive());
    assert_eq!(c.get_around_survivers_count(), 0);
    assert_eq!(c.get_aroundcell_refcnts(), 0);
    assert_eq!(c.get_point().x(), 2);
    assert_eq!(c.get_point().y(), 5);
}

#[test]
fn notifications_move_the_cached_count_by_one() {
    let mut c = Cell::new(Point::new(1, 1));
    c.notify_born();
    c.notify_born();
    c.notify_born();
    assert_eq!(c.get_around_survivers_count(), 3);
    c.notify_kill();
    assert_eq!(c.get_around_survivers_count(), 2);
    assert!(!c.get_survive());
}

#[test]
fn relation_registration_is_capped_at_eight() {
    let mut c = Cell::new(Point::new(1, 1));
    for i in 0..12 {
        c.set_arround_cells(i);
    }
    assert_eq!(c.get_aroundcell_refcnts(), 8);
}

#[test]
fn cells_compare_by_alive_state_alone() {
    let mut a = Cell::new(Point::new(1, 1));
    let mut b = Cell::new(Point::new(4, 4));
    b.notify_born();
    assert!(a == b);
    let c = a.clone();
    assert!(c == a);
    a.notify_born();
    assert!(a == b);
}

#[test]
fn clone_copies_state_and_relations() {
    let mut a = Cell::new(Point::new(1, 2));
    a.set_arround_cells(9);
    a.set_arround_cells(11);
    a.notify_born();
    let b = a.clone();
    assert_eq!(b.get_around_survivers_count(), 1);
    assert_eq!(b.get_aroundcell_refcnts(), 2);
    assert!(!b.get_survive());
    assert_eq!(b.get_point().x(), 1);
    assert_eq!(b.get_point().y(), 2);
}

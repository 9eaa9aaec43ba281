use maaray::cursor::VecCursor;

#[test]
fn set_position_then_current_returns_that_element() {
    let mut c = VecCursor::new(vec![10, 20, 30]);
    c.set_position(1);
    assert_eq!(c.current(), Some(&20));
    assert_eq!(c.position(), 1);
    c.set_position(0);
    assert_eq!(c.current(), Some(&10));
}

#[test]
fn set_position_at_length_gives_none() {
    let mut c = VecCursor::new(vec![10, 20, 30]);
    c.set_position(3);
    assert_eq!(c.current(), None::<&i32>);
    assert_eq!(c.position(), 3);
}

#[test]
fn set_position_clamps_to_length() {
    let mut c = VecCursor::new(vec![10, 20, 30]);
    c.set_position(99);
    assert_eq!(c.position(), 3);
    assert!(c.reached_end());
}

#[test]
fn advance_length_times_exhausts() {
    let mut c = VecCursor::new(vec![1, 2, 3]);
    assert_eq!(c.next(), Some(&1));
    assert_eq!(c.next(), Some(&2));
    assert_eq!(c.next(), Some(&3));
    assert!(c.reached_end());
    assert_eq!(c.next(), None::<&i32>);
    assert_eq!(c.position(), 3);
}

#[test]
fn retreat_at_zero_returns_none_and_stays() {
    let mut c = VecCursor::new(vec![1, 2]);
    assert_eq!(c.prev(), None::<&i32>);
    assert_eq!(c.position(), 0);
}

#[test]
fn retreat_undoes_one_advance() {
    let mut c = VecCursor::new(vec![1, 2]);
    c.next();
    c.next();
    assert_eq!(c.prev(), Some(&2));
    assert_eq!(c.position(), 1);
    assert_eq!(c.current(), Some(&2));
}

#[test]
fn len_and_empty_cursor() {
    let c = VecCursor::new(Vec::<u8>::new());
    assert_eq!(c.len(), 0);
    assert!(c.reached_end());
    assert_eq!(c.current(), None::<&u8>);
}

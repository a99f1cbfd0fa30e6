use tetris::collector::PieceCollector;
use tetris::shape::Shape;

#[test]
fn same_seed_same_stream() {
    let seed = [7u8; 16];
    let mut a = PieceCollector::new(seed);
    let mut b = PieceCollector::new(seed);
    for _ in 0..200 {
        assert_eq!(a.get_current(), b.get_current());
        assert_eq!(a.get_next(), b.get_next());
        a.next();
        b.next();
    }
}

#[test]
fn stream_shifts_next_into_current() {
    let mut c = PieceCollector::new([0u8; 16]);
    for _ in 0..100 {
        let next = c.get_next();
        c.next();
        assert_eq!(next, c.get_current());
        assert!(1 <= c.current_shape && c.current_shape <= 7);
        assert!(1 <= c.next_shape && c.next_shape <= 7);
    }
}

#[test]
fn stream_kinds_are_in_spawn_orientation() {
    let mut c = PieceCollector::new([3u8; 16]);
    let mut seen = [false; 8];
    for _ in 0..500 {
        let s = c.get_current();
        assert_eq!(Shape::from_index(c.current_shape), Some(s));
        seen[c.current_shape as usize] = true;
        c.next();
    }
    assert!(seen[1..].iter().all(|&b| b));
}

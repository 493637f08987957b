use protohackers::prices::{decode, read_i32_be, Command, Reply, Session};

fn message(kind: u8, a: i32, b: i32) -> [u8; 9] {
    let mut m = [0u8; 9];
    m[0] = kind;
    m[1..5].copy_from_slice(&a.to_be_bytes());
    m[5..9].copy_from_slice(&b.to_be_bytes());
    m
}

#[test]
fn reads_big_endian_numbers() {
    assert_eq!(read_i32_be(0x00, 0x00, 0x30, 0x39), 12345);
    assert_eq!(read_i32_be(0xff, 0xff, 0xff, 0xff), -1);
    assert_eq!(read_i32_be(0x80, 0x00, 0x00, 0x00), i32::MIN);
    assert_eq!(read_i32_be(0x7f, 0xff, 0xff, 0xff), i32::MAX);
}

#[test]
fn decodes_messages() {
    match decode(&message(b'I', 12345, 101)) {
        Command::Insert { timestamp, price } => {
            assert_eq!(timestamp, 12345);
            assert_eq!(price, 101);
        }
        _ => panic!("expected an insert"),
    }
    match decode(&message(b'Q', 1000, -5)) {
        Command::Query { min_time, max_time } => {
            assert_eq!(min_time, 1000);
            assert_eq!(max_time, -5);
        }
        _ => panic!("expected a query"),
    }
    assert!(matches!(decode(&message(b'X', 1, 2)), Command::Other));
}

#[test]
fn example_session() {
    let mut s = Session::new();
    assert!(s.handle(&message(b'I', 12345, 101)).is_none());
    assert!(s.handle(&message(b'I', 12346, 102)).is_none());
    assert!(s.handle(&message(b'I', 12347, 100)).is_none());
    assert!(s.handle(&message(b'I', 40960, 5)).is_none());
    assert!(matches!(s.handle(&message(b'Q', 12288, 16384)), Some(Reply::Mean(101))));
}

#[test]
fn insertion_order_does_not_matter() {
    let mut s = Session::new();
    s.insert(30, 9);
    s.insert(10, 1);
    s.insert(20, 5);
    assert!(matches!(s.query(10, 30), Reply::Mean(5)));
    assert!(matches!(s.query(15, 30), Reply::Mean(7)));
    assert!(matches!(s.query(10, 10), Reply::Mean(1)));
}

#[test]
fn empty_and_reversed_spans_give_zero() {
    let mut s = Session::new();
    assert!(matches!(s.query(0, 100), Reply::Mean(0)));
    s.insert(50, 7);
    assert!(matches!(s.query(60, 40), Reply::Mean(0)));
    assert!(matches!(s.query(51, 100), Reply::Mean(0)));
    assert_eq!(s.mean_price(0, 100), 7);
}

#[test]
fn mean_rounds_toward_zero() {
    let mut s = Session::new();
    s.insert(1, -3);
    s.insert(2, -4);
    assert!(matches!(s.query(1, 2), Reply::Mean(-3)));
    s.insert(3, 10);
    assert!(matches!(s.query(2, 3), Reply::Mean(3)));
}

#[test]
fn extreme_prices_do_not_overflow() {
    let mut s = Session::new();
    s.insert(1, i32::MAX);
    s.insert(2, i32::MAX);
    s.insert(3, i32::MIN);
    s.insert(4, i32::MIN);
    assert!(matches!(s.query(1, 2), Reply::Mean(i32::MAX)));
    assert!(matches!(s.query(3, 4), Reply::Mean(i32::MIN)));
    assert!(matches!(s.query(i32::MIN, i32::MAX), Reply::Mean(0)));
}

#[test]
fn a_repeated_timestamp_refuses_all_later_queries() {
    let mut s = Session::new();
    s.insert(5, 10);
    assert!(matches!(s.query(0, 10), Reply::Mean(10)));
    assert!(s.handle(&message(b'I', 5, 20)).is_none());
    assert!(matches!(s.handle(&message(b'Q', 0, 10)), Some(Reply::Refused)));
    s.insert(6, 1);
    assert!(matches!(s.query(100, 200), Reply::Refused));
}

#[test]
fn unknown_messages_are_ignored() {
    let mut s = Session::new();
    assert!(s.handle(&message(b'Z', 5, 20)).is_none());
    assert!(matches!(s.query(0, 10), Reply::Mean(0)));
}

#[test]
fn messages_in_sequence() {
    let mut s = Session::new();
    assert!(s.handle(&message(b'I', 1, 10)).is_none());
    assert!(s.handle(&message(b'I', 2, 20)).is_none());
    assert!(s.handle(&message(b'I', 3, 30)).is_none());
    assert!(matches!(s.handle(&message(b'Q', 1, 2)), Some(Reply::Mean(15))));

    let mut t = Session::new();
    assert!(matches!(t.handle(&message(b'Q', 0, 100)), Some(Reply::Mean(0))));
    assert!(t.handle(&message(b'I', 5, 100)).is_none());
    assert!(matches!(t.handle(&message(b'Q', 10, 1)), Some(Reply::Mean(0))));
}

#[test]
fn permuted_inserts_give_the_same_replies() {
    let inserts = [(3, 30), (1, 10), (2, 20), (7, -4)];
    let mut a = Session::new();
    let mut b = Session::new();
    for (t, p) in inserts {
        a.handle(&message(b'I', t, p));
    }
    for (t, p) in inserts.iter().rev() {
        b.handle(&message(b'I', *t, *p));
    }
    for (lo, hi) in [(0, 10), (1, 2), (2, 7), (8, 9)] {
        let ra = a.handle(&message(b'Q', lo, hi));
        let rb = b.handle(&message(b'Q', lo, hi));
        match (ra, rb) {
            (Some(Reply::Mean(x)), Some(Reply::Mean(y))) => assert_eq!(x, y),
            _ => panic!("expected two means"),
        }
    }
}

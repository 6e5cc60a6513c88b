use circular_buffer1::VecCircBuf;

#[test]
fn initial_state() {
    let buf = VecCircBuf::<i16>::new(8);
    assert_eq!(0, buf.len());
    assert_eq!(8, buf.capacity());
    assert_eq!(None, buf.get(0));
}

#[test]
fn when_capacity_is_zero() {
    let buf = VecCircBuf::<i16>::new(0);
    assert_eq!(0, buf.len());
    assert_eq!(0, buf.capacity());
    assert_eq!(None, buf.get(0));
}

#[test]
#[should_panic]
fn when_capacity_is_zero_panic_on_add() {
    let mut buf = VecCircBuf::<i16>::new(0);
    buf.add(1234)
}

#[test]
fn add_samples() {
    let mut buf = VecCircBuf::<i32>::new(8);
    buf.add(1001);
    assert_eq!(1, buf.len());
    assert_eq!(1001, buf.get(0).unwrap());
    assert_eq!(None, buf.get(1));
    assert_eq!(None, buf.get(2));
    buf.add(1002);
    assert_eq!(2, buf.len());
    assert_eq!(1002, buf.get(0).unwrap());
    assert_eq!(1001, buf.get(1).unwrap());
    assert_eq!(None, buf.get(2));
    // Add 6 more to fill the buffer.
    for i in 0..6 {
        buf.add(1003 + i)
    }
    for i in 0..8 as usize {
        let val: i32 = 1008 - i as i32;
        assert_eq!(val, buf.get(i).unwrap())
    }
}

#[test]
fn check_iterator() {
    // Simple tests, adding a few samples and expecting them back in reverse order.
    let mut buf = VecCircBuf::<i32>::new(5);
    buf.add(1);
    let mut iter = buf.iter();
    assert_eq!(1, *iter.next().expect("Nothing?"));
    assert_eq!(None, iter.next());

    let mut buf = VecCircBuf::<i32>::new(5);
    buf.add(1);
    buf.add(2);
    let mut iter = buf.iter();
    assert_eq!(2, *iter.next().expect("Nothing?"));
    assert_eq!(1, *iter.next().expect("Nothing?"));
    assert_eq!(None, iter.next());

    let mut buf = VecCircBuf::<i32>::new(5);
    buf.add(1);
    buf.add(2);
    buf.add(3);
    let mut iter = buf.iter();
    assert_eq!(3, *iter.next().expect("Nothing?"));
    assert_eq!(2, *iter.next().expect("Nothing?"));
    assert_eq!(1, *iter.next().expect("Nothing?"));
    assert_eq!(None, iter.next());

    // Now overwrite old entries.
    let mut buf = VecCircBuf::<i32>::new(5);
    let limit = 100;
    for s in 1..limit {
        buf.add(s)
    }
    let mut iter = buf.iter();
    let oldest: i32 = limit - buf.capacity() as i32;
    for expected in (oldest..limit).rev() {
        let s = *iter.next().expect("Nothing?");
        assert_eq!(expected, s, "s={} expected={}", s, expected);
    }
    assert_eq!(None, iter.next());
}

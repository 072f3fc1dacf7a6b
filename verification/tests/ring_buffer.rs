use lib::ring_buffer::RingBuffer;

#[test]
fn push_pop_wraps_in_fifo_order() {
    let mut buffer = RingBuffer::<u32, 3>::new();
    assert!(buffer.push(1).is_ok());
    assert!(buffer.push(2).is_ok());
    assert_eq!(buffer.pop(), Some(1));
    assert!(buffer.push(3).is_ok());
    assert!(buffer.push(4).is_ok());
    assert_eq!(buffer.pop(), Some(2));
    assert_eq!(buffer.pop(), Some(3));
    assert_eq!(buffer.pop(), Some(4));
    assert_eq!(buffer.pop(), None);
}

#[test]
fn ring_reports_len_and_fullness() {
    let mut buffer = RingBuffer::<u32, 2>::new();
    assert_eq!(buffer.capacity(), 2);
    assert!(buffer.is_empty());
    assert!(buffer.push(7).is_ok());
    assert_eq!(buffer.len(), 1);
    assert!(buffer.push(8).is_ok());
    assert!(buffer.is_full());
    assert_eq!(buffer.push(9), Err(9));
    assert_eq!(buffer.len(), 2);
    assert_eq!(buffer.pop(), Some(7));
    assert_eq!(buffer.pop(), Some(8));
    assert!(buffer.is_empty());
}

#[test]
fn zero_capacity_ring_refuses_everything() {
    let mut buffer = RingBuffer::<u8, 0>::new();
    assert!(buffer.is_full());
    assert!(buffer.is_empty());
    assert_eq!(buffer.push(5), Err(5));
    assert_eq!(buffer.pop(), None);
}

#[test]
fn ring_keeps_fifo_order_over_many_wraps() {
    let mut buffer = RingBuffer::<u32, 3>::new();
    let mut next_in = 0u32;
    let mut next_out = 0u32;
    for round in 0..20u32 {
        while buffer.push(next_in).is_ok() {
            next_in += 1;
        }
        for _ in 0..(round % 3 + 1) {
            if let Some(v) = buffer.pop() {
                assert_eq!(v, next_out);
                next_out += 1;
            }
        }
    }
    while let Some(v) = buffer.pop() {
        assert_eq!(v, next_out);
        next_out += 1;
    }
    assert_eq!(next_in, next_out);
}

#[test]
fn ring_holds_owned_values() {
    let mut buffer = RingBuffer::<String, 2>::new();
    assert!(buffer.push(String::from("a")).is_ok());
    assert!(buffer.push(String::from("b")).is_ok());
    assert_eq!(buffer.push(String::from("c")), Err(String::from("c")));
    assert_eq!(buffer.pop(), Some(String::from("a")));
}

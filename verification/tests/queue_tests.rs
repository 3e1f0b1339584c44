//! Tests of the scancode ring buffer: FIFO order, the count of buffered
//! bytes, and the overflow signal at capacity.

use zynthos::keyboard::ScancodeStream;

#[test]
fn fresh_queue_is_empty() {
    let mut q = ScancodeStream::new();
    assert_eq!(q.pop(), None);
    assert_eq!(q.pop(), None);
}

#[test]
fn fifo_order_roundtrip() {
    let mut q = ScancodeStream::new();
    for b in 1u8..=10 {
        assert_eq!(q.push(b), Ok(()));
    }
    for b in 1u8..=10 {
        assert_eq!(q.pop(), Some(b));
    }
    assert_eq!(q.pop(), None);
}

#[test]
fn buffered_count_is_pushes_minus_pops() {
    let mut q = ScancodeStream::new();
    let mut pushed: u32 = 0;
    let mut popped: u32 = 0;
    for round in 0..50u32 {
        for i in 0..5u32 {
            assert_eq!(q.push((round + i) as u8), Ok(()));
            pushed += 1;
        }
        for _ in 0..3u32 {
            assert!(q.pop().is_some());
            popped += 1;
        }
    }
    // Drain what the interleaving left behind: exactly pushed - popped bytes.
    let mut drained: u32 = 0;
    while q.pop().is_some() {
        drained += 1;
    }
    assert_eq!(drained, pushed - popped);
}

#[test]
fn overflow_signalled_at_capacity() {
    let mut q = ScancodeStream::new();
    for i in 0..255u32 {
        assert_eq!(q.push(i as u8), Ok(()), "push {} of 255 must succeed", i);
    }
    // The 256th consecutive push fails and leaves the queue unchanged.
    assert_eq!(q.push(0xAB), Err(()));
    assert_eq!(q.push(0xCD), Err(()));
    for i in 0..255u32 {
        assert_eq!(q.pop(), Some(i as u8));
    }
    assert_eq!(q.pop(), None);
}

#[test]
fn order_kept_across_wraparound() {
    let mut q = ScancodeStream::new();
    // Push and pop more than the ring size in total, so the indices wrap.
    for round in 0u32..7 {
        for i in 0u32..100 {
            assert_eq!(q.push((round * 100 + i) as u8), Ok(()));
        }
        for i in 0u32..100 {
            assert_eq!(q.pop(), Some((round * 100 + i) as u8));
        }
    }
    assert_eq!(q.pop(), None);
}
